//! Which keys name secrets, and how keys are ordered, said of the keys alone.

use vstd::prelude::*;

use super::{is_secret, key_before};
use crate::text::laws::{alike_but_for_case, small_letters_tell_alike};
use crate::text::{ascii_lower, lower};

verus! {

/// Two texts are the same, ASCII case aside.
pub open spec fn same_but_for_case(left: Seq<char>, right: Seq<char>) -> bool {
    &&& left.len() == right.len()
    &&& forall|i: int| 0 <= i < left.len() ==> alike_but_for_case(#[trigger] left[i], right[i])
}

proof fn lemma_small_letters(key: Seq<char>, name: Seq<char>)
    requires
        ascii_lower(name) == name,
    ensures
        ascii_lower(key) == name <==> same_but_for_case(key, name),
{
    if ascii_lower(key) == name {
        assert forall|i: int| 0 <= i < key.len() implies alike_but_for_case(
            #[trigger] key[i],
            name[i],
        ) by {
            assert(ascii_lower(key)[i] == lower(key[i]));
            assert(ascii_lower(name)[i] == lower(name[i]));
            small_letters_tell_alike(key[i], name[i]);
        }
    }
    if same_but_for_case(key, name) {
        assert forall|i: int| 0 <= i < key.len() implies ascii_lower(key)[i] == name[i] by {
            assert(alike_but_for_case(key[i], name[i]));
            small_letters_tell_alike(key[i], name[i]);
            assert(ascii_lower(name)[i] == lower(name[i]));
        }
        assert(ascii_lower(key) =~= name);
    }
}

/// Three keys name secrets, in any ASCII case, and no others do: the password, that of the gateway,
/// and the token.
pub proof fn three_keys_name_secrets(key: Seq<char>)
    ensures
        is_secret(key) <==> same_but_for_case(key, "ClearTextPassword"@) || same_but_for_case(
            key,
            "GatewayPassword"@,
        ) || same_but_for_case(key, "ironrdp_rdcleanpathtoken"@),
{
    reveal_strlit("ClearTextPassword");
    reveal_strlit("cleartextpassword");
    reveal_strlit("GatewayPassword");
    reveal_strlit("gatewaypassword");
    reveal_strlit("ironrdp_rdcleanpathtoken");
    assert(ascii_lower("cleartextpassword"@) =~= "cleartextpassword"@);
    assert(ascii_lower("ClearTextPassword"@) =~= "cleartextpassword"@);
    assert(ascii_lower("gatewaypassword"@) =~= "gatewaypassword"@);
    assert(ascii_lower("GatewayPassword"@) =~= "gatewaypassword"@);
    assert(ascii_lower("ironrdp_rdcleanpathtoken"@) =~= "ironrdp_rdcleanpathtoken"@);
    lemma_small_letters(key, "cleartextpassword"@);
    lemma_small_letters(key, "gatewaypassword"@);
    lemma_small_letters(key, "ironrdp_rdcleanpathtoken"@);
    lemma_either_way(key, "cleartextpassword"@, "ClearTextPassword"@);
    lemma_either_way(key, "gatewaypassword"@, "GatewayPassword"@);
}

proof fn lemma_either_way(key: Seq<char>, small: Seq<char>, name: Seq<char>)
    requires
        ascii_lower(small) == small,
        ascii_lower(name) == small,
    ensures
        same_but_for_case(key, small) <==> same_but_for_case(key, name),
{
    assert(small.len() == name.len());
    assert forall|i: int| 0 <= i < key.len() && key.len() == name.len() implies (alike_but_for_case(
        #[trigger] key[i],
        small[i],
    ) <==> alike_but_for_case(key[i], name[i])) by {
        assert(ascii_lower(small)[i] == lower(small[i]));
        assert(ascii_lower(name)[i] == lower(name[i]));
        small_letters_tell_alike(key[i], small[i]);
        small_letters_tell_alike(key[i], name[i]);
    }
}

/// Keys are ordered by the first character in which they differ, and a key that another goes on
/// from comes before it.
pub proof fn the_first_difference_orders(
    common: Seq<char>,
    left: char,
    left_rest: Seq<char>,
    right: char,
    right_rest: Seq<char>,
)
    ensures
        left < right ==> key_before(
            common + seq![left] + left_rest,
            common + seq![right] + right_rest,
        ),
        left > right ==> !key_before(
            common + seq![left] + left_rest,
            common + seq![right] + right_rest,
        ),
        key_before(common, common + seq![right] + right_rest),
        !key_before(common + seq![left] + left_rest, common),
        !key_before(common, common),
    decreases common.len(),
{
    if common.len() > 0 {
        let fewer = common.skip(1);
        the_first_difference_orders(fewer, left, left_rest, right, right_rest);
        assert((common + seq![left] + left_rest).skip(1) =~= fewer + seq![left] + left_rest);
        assert((common + seq![right] + right_rest).skip(1) =~= fewer + seq![right] + right_rest);
    }
}

} // verus!
