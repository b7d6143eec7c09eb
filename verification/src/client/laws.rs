//! What holds of the complaint about missing fields and of build numbers.

use vstd::prelude::*;

use super::{
    build_number, dotted_parts, identifies, missing_fields_text, name_of, names, platform_of,
    HostPlatform, IdentityView, MissingField,
};
use crate::cli::laws::lemma_decimal_reads_back;
use crate::text::laws::{
    numbers_that_are_read_are_in_range, what_is_contained_stands_between,
    what_stands_between_is_contained,
};
use crate::text::{contains_text, decimal, decimals_are_digits, number_value};

verus! {

// ---------------------------------------------------------------------------
// Missing fields
// ---------------------------------------------------------------------------

/// The names of fields are listed one after the other, between commas.
pub proof fn names_are_listed(first: Seq<MissingField>, second: Seq<MissingField>)
    requires
        first.len() > 0,
        second.len() > 0,
    ensures
        names(first + second) == names(first) + ", "@ + names(second),
        first.len() == 1 ==> names(first) == first[0].name(),
        missing_fields_text(first) == "missing required fields: "@ + names(first),
    decreases second.len(),
{
    let all = first + second;
    assert(all.drop_last() =~= first + second.drop_last());
    assert(all.last() == second.last());
    if second.len() == 1 {
        assert(first + second.drop_last() =~= first);
        assert(names(second) == second[0].name());
    } else {
        names_are_listed(first, second.drop_last());
        assert(names(all) =~= names(first) + ", "@ + names(second));
    }
}

/// Each field has a name of its own.
pub proof fn fields_have_names(field: MissingField)
    ensures
        field is ServerAddress ==> field.name() == "server address"@,
        field is Username ==> field.name() == "username"@,
        field is Password ==> field.name() == "password"@,
        field is GatewayUsername ==> field.name() == "gateway username"@,
        field is GatewayPassword ==> field.name() == "gateway password"@,
        field is RDCleanPathToken ==> field.name() == "RDCleanPath token"@,
        field is ClientBuild ==> field.name() == "client build"@,
        field is ClientDir ==> field.name() == "client dir"@,
        field is Platform ==> field.name() == "platform"@,
        field is ClientName ==> field.name() == "client name"@,
{
}

/// The complaint about missing fields holds the name of each of them.
pub proof fn every_missing_field_is_named(fields: Seq<MissingField>, at: int)
    requires
        0 <= at < fields.len(),
    ensures
        contains_text(missing_fields_text(fields), fields[at].name()),
{
    lemma_named(fields, at);
    let (before, after) = what_is_contained_stands_between(names(fields), fields[at].name());
    let head = "missing required fields: "@;
    assert(head + (before + fields[at].name() + after) =~= (head + before) + fields[at].name()
        + after);
    what_stands_between_is_contained(head + before, fields[at].name(), after);
}

proof fn lemma_named(fields: Seq<MissingField>, at: int)
    requires
        0 <= at < fields.len(),
    ensures
        contains_text(names(fields), fields[at].name()),
    decreases fields.len(),
{
    let name = fields[at].name();
    let none = Seq::<char>::empty();
    if fields.len() == 1 {
        assert(none + name + none =~= name);
        what_stands_between_is_contained(none, name, none);
    } else {
        let fewer = fields.drop_last();
        if at == fields.len() - 1 {
            assert(names(fewer) + ", "@ + name + none =~= names(fields));
            what_stands_between_is_contained(names(fewer) + ", "@, name, none);
        } else {
            lemma_named(fewer, at);
            let (before, after) = what_is_contained_stands_between(names(fewer), name);
            let tail = after + ", "@ + fields.last().name();
            assert(before + name + tail =~= names(fields));
            what_stands_between_is_contained(before, name, tail);
        }
    }
}

// ---------------------------------------------------------------------------
// Identity
// ---------------------------------------------------------------------------

/// No dot stands in `text`.
pub open spec fn has_no_dot(text: Seq<char>) -> bool {
    forall|i: int| 0 <= i < text.len() ==> #[trigger] text[i] != '.'
}

/// The number that a part of a version counts for: none where it is not a number that fits.
pub open spec fn counted(part: Seq<char>) -> int {
    match number_value(part, 10, u32::MAX as int) {
        Ok(number) => number,
        Err(_) => 0,
    }
}

proof fn lemma_one_part(text: Seq<char>)
    requires
        has_no_dot(text),
    ensures
        dotted_parts(text) == seq![text],
    decreases text.len(),
{
    if text.len() == 0 {
        assert(text =~= Seq::empty());
    } else {
        let fewer = text.drop_last();
        assert(has_no_dot(fewer));
        lemma_one_part(fewer);
        assert(text.last() == text[text.len() - 1]);
        assert(fewer.push(text.last()) =~= text);
        assert(dotted_parts(text) =~= seq![text]);
    }
}

proof fn lemma_one_more_part(text: Seq<char>, part: Seq<char>)
    requires
        has_no_dot(part),
    ensures
        dotted_parts(text + seq!['.'] + part) == dotted_parts(text).push(part),
    decreases part.len(),
{
    let whole = text + seq!['.'] + part;
    if part.len() == 0 {
        assert(whole.drop_last() =~= text);
        assert(part =~= Seq::empty());
    } else {
        let fewer = part.drop_last();
        assert(has_no_dot(fewer));
        lemma_one_more_part(text, fewer);
        assert(whole.drop_last() =~= text + seq!['.'] + fewer);
        assert(whole.last() == part[part.len() - 1]);
        assert(dotted_parts(text).push(fewer).drop_last() =~= dotted_parts(text));
        assert(fewer.push(part.last()) =~= part);
    }
}

proof fn lemma_parts_stay(text: Seq<char>, more: Seq<char>)
    ensures
        dotted_parts(text).len() >= 1,
        dotted_parts(text + seq!['.'] + more).len() > dotted_parts(text).len(),
        forall|i: int|
            0 <= i < dotted_parts(text).len() ==> dotted_parts(text + seq!['.'] + more)[i]
                == #[trigger] dotted_parts(text)[i],
    decreases text.len() + more.len(),
{
    lemma_some_part(text);
    let whole = text + seq!['.'] + more;
    if more.len() == 0 {
        assert(whole.drop_last() =~= text);
    } else {
        lemma_parts_stay(text, more.drop_last());
        assert(whole.drop_last() =~= text + seq!['.'] + more.drop_last());
    }
}

proof fn lemma_some_part(text: Seq<char>)
    ensures
        dotted_parts(text).len() >= 1,
    decreases text.len(),
{
    if text.len() > 0 {
        lemma_some_part(text.drop_last());
    }
}

/// The build number counts the first three parts of a version, a hundred, ten and one fold, up to
/// the greatest `u32`; parts that are missing count nothing, nor do parts that are no number, and
/// those behind the third are not looked at.
pub proof fn build_numbers_count_three_parts(
    major: Seq<char>,
    minor: Seq<char>,
    patch: Seq<char>,
    more: Seq<char>,
)
    requires
        has_no_dot(major),
        has_no_dot(minor),
        has_no_dot(patch),
    ensures
        ({
            let two = major + seq!['.'] + minor;
            let three = two + seq!['.'] + patch;
            let sum = counted(major) * 100 + counted(minor) * 10 + counted(patch);
            &&& build_number(three) as int == if sum <= u32::MAX {
                sum
            } else {
                u32::MAX as int
            }
            &&& build_number(three + seq!['.'] + more) == build_number(three)
            &&& counted(patch) == 0 ==> build_number(two) == build_number(three)
            &&& counted(minor) == 0 && counted(patch) == 0 ==> build_number(major) == build_number(
                three,
            )
        }),
{
    let two = major + seq!['.'] + minor;
    let three = two + seq!['.'] + patch;
    numbers_that_are_read_are_in_range(major, 10, u32::MAX as int);
    numbers_that_are_read_are_in_range(minor, 10, u32::MAX as int);
    numbers_that_are_read_are_in_range(patch, 10, u32::MAX as int);
    lemma_one_part(major);
    lemma_one_more_part(major, minor);
    lemma_one_more_part(two, patch);
    lemma_parts_stay(three, more);
    assert(dotted_parts(three).len() == 3);
    assert(dotted_parts(three)[0] == major);
    assert(dotted_parts(three)[1] == minor);
    assert(dotted_parts(three)[2] == patch);
    assert(dotted_parts(three + seq!['.'] + more)[0] == major);
    assert(dotted_parts(three + seq!['.'] + more)[1] == minor);
    assert(dotted_parts(three + seq!['.'] + more)[2] == patch);
}

/// A version of three numbers has the build number that they count.
pub proof fn numbered_versions_are_counted(major: u32, minor: u32, patch: u32)
    ensures
        ({
            let version = decimal(major as nat) + seq!['.'] + decimal(minor as nat) + seq!['.']
                + decimal(patch as nat);
            build_number(version) as int == if major * 100 + minor * 10 + patch <= u32::MAX {
                major * 100 + minor * 10 + patch
            } else {
                u32::MAX as int
            }
        }),
{
    decimals_are_digits(major as nat);
    decimals_are_digits(minor as nat);
    decimals_are_digits(patch as nat);
    lemma_decimal_reads_back(major as nat, u32::MAX as int);
    lemma_decimal_reads_back(minor as nat, u32::MAX as int);
    lemma_decimal_reads_back(patch as nat, u32::MAX as int);
    assert(decimal(major as nat)[0] != '+');
    assert(decimal(minor as nat)[0] != '+');
    assert(decimal(patch as nat)[0] != '+');
    build_numbers_count_three_parts(
        decimal(major as nat),
        decimal(minor as nat),
        decimal(patch as nat),
        Seq::empty(),
    );
}

/// A client of a version gives the build number of that version and the directory that all give,
/// whatever the machine, and the name and the platform of some machine.
pub proof fn identities_tell_of_the_version(identity: IdentityView, version: Seq<char>)
    requires
        identifies(identity, version),
    ensures
        identity.build == build_number(version),
        identity.dir == "C:\\Windows\\System32\\mstscax.dll"@,
{
}

/// The client gives the computer's own name where it is known, and announces each system as the
/// platform of its kind.
pub proof fn identities_tell_of_the_machine(hostname: Seq<char>, host: HostPlatform)
    ensures
        name_of(Some(hostname)) == hostname,
        name_of(None) == "ironrdp-agent"@,
        host is Windows <==> platform_of(host) is Windows,
        host is Linux <==> platform_of(host) is Unix,
        host is Mac <==> platform_of(host) is Macintosh,
        host is Ios <==> platform_of(host) is Ios,
        host is Android <==> platform_of(host) is Android,
        host is Other <==> platform_of(host) is Unspecified,
{
}

} // verus!
