//! What holds of the daemon as a whole.

use ironrdp_client::config::Config;
use vstd::prelude::*;

use super::{
    after_output, answered, closing, dump, entry_of, followed, just_opened, next_id, no_session,
    opening, screenshot_answer, secrets_after, shown, started, status_of, DaemonView, LiveView,
    OutputEvent, SessionView, StepView,
};
use crate::ipc::{EntryView, KeyFilter, PayloadView, Request, ResponseView, REDACTED};
use crate::logbuf::{
    all_texts, clean_lines_stay, registered_secrets_are_never_retained, scrubbed,
    scrubbed_texts_hold_no_secret, secret_text, secrets_in,
};
use crate::properties::{
    finite_properties_have_a_listing, has_key, in_key_order, is_secret, key_before,
    listing_is_in_key_order, lists, PropertyMap, PropertyPair, PropertyValue,
};
use crate::text::{clear_of, contains_text};

verus! {

// ---------------------------------------------------------------------------
// Dumps
// ---------------------------------------------------------------------------

proof fn lemma_dump_of_one_more(entries: Seq<PropertyPair>, filter: Option<KeyFilter>)
    requires
        entries.len() > 0,
    ensures
        dump(entries, filter) == if shown(filter, entries.last().0) {
            dump(entries.drop_last(), filter).push(entry_of(entries.last()))
        } else {
            dump(entries.drop_last(), filter)
        },
{
    reveal(Seq::filter);
    assert(dump(entries, filter) =~= if shown(filter, entries.last().0) {
        dump(entries.drop_last(), filter).push(entry_of(entries.last()))
    } else {
        dump(entries.drop_last(), filter)
    });
}

proof fn lemma_dump_of_none(filter: Option<KeyFilter>)
    ensures
        dump(Seq::<PropertyPair>::empty(), filter) == Seq::<EntryView>::empty(),
{
    reveal(Seq::filter);
    assert(dump(Seq::<PropertyPair>::empty(), filter) =~= Seq::<EntryView>::empty());
}

/// A dump shows no secret: whatever the properties and the filter, the value under a key that names
/// a secret is [`REDACTED`].
pub proof fn dumps_show_no_secret(entries: Seq<PropertyPair>, filter: Option<KeyFilter>)
    ensures
        forall|i: int|
            0 <= i < dump(entries, filter).len() && is_secret(
                (#[trigger] dump(entries, filter)[i]).key,
            ) ==> dump(entries, filter)[i].value == PropertyValue::Str(REDACTED@),
{
    assert forall|i: int|
        0 <= i < dump(entries, filter).len() && is_secret(
            (#[trigger] dump(entries, filter)[i]).key,
        ) implies dump(entries, filter)[i].value == PropertyValue::Str(REDACTED@) by {
        let kept = entries.filter(|pair: PropertyPair| shown(filter, pair.0));
        assert(dump(entries, filter)[i] == entry_of(kept[i]));
    }
}

/// A filtered dump is what the filter shows of the whole dump, in the same order.
pub proof fn filtered_dumps_are_parts_of_the_whole(
    entries: Seq<PropertyPair>,
    filter: KeyFilter,
)
    ensures
        dump(entries, Some(filter)) == dump(entries, None).filter(
            |entry: EntryView| filter.shows(entry.key),
        ),
    decreases entries.len(),
{
    let kept = |entry: EntryView| filter.shows(entry.key);
    if entries.len() == 0 {
        assert(entries =~= Seq::empty());
        lemma_dump_of_none(None);
        lemma_dump_of_none(Some(filter));
        reveal(Seq::filter);
    } else {
        let fewer = entries.drop_last();
        filtered_dumps_are_parts_of_the_whole(fewer, filter);
        lemma_dump_of_one_more(entries, None);
        lemma_dump_of_one_more(entries, Some(filter));
        let whole = dump(entries, None);
        assert(whole.drop_last() =~= dump(fewer, None));
        reveal(Seq::filter);
    }
}

/// One of `entries` has the key `key`.
pub open spec fn shows_key(entries: Seq<EntryView>, key: Seq<char>) -> bool {
    exists|i: int| 0 <= i < entries.len() && (#[trigger] entries[i]).key == key
}

/// A dump is complete: it shows the keys of the properties that the filter shows and no others,
/// and under a key that does not name a secret the value that the properties have.
pub proof fn dumps_are_complete(properties: PropertyMap, filter: Option<KeyFilter>)
    requires
        properties.dom().finite(),
    ensures
        forall|key: Seq<char>| #[trigger]
            shows_key(dump(in_key_order(properties), filter), key) <==> properties.contains_key(key)
                && shown(filter, key),
        forall|i: int|
            0 <= i < dump(in_key_order(properties), filter).len() && !is_secret(
                (#[trigger] dump(in_key_order(properties), filter)[i]).key,
            ) ==> dump(in_key_order(properties), filter)[i].value
                == properties[dump(in_key_order(properties), filter)[i].key],
{
    finite_properties_have_a_listing(properties);
    let all = in_key_order(properties);
    let wanted = |pair: PropertyPair| shown(filter, pair.0);
    let kept = all.filter(wanted);
    let dumped = dump(all, filter);
    assert forall|i: int| 0 <= i < dumped.len() implies properties.contains_key(
        (#[trigger] dumped[i]).key,
    ) && shown(filter, dumped[i].key) && (is_secret(dumped[i].key) || dumped[i].value
        == properties[dumped[i].key]) by {
        assert(dumped[i] == entry_of(kept[i]));
        all.lemma_filter_pred(wanted, i);
        assert(kept.contains(kept[i]));
        all.lemma_filter_contains_rev(wanted, kept[i]);
        let n = choose|n: int| 0 <= n < all.len() && all[n] == kept[i];
        assert(properties.contains_key(all[n].0));
    }
    assert forall|key: Seq<char>|
        properties.contains_key(key) && shown(filter, key) implies #[trigger] shows_key(
        dumped,
        key,
    ) by {
        assert(has_key(all, key));
        let n = choose|n: int| 0 <= n < all.len() && (#[trigger] all[n]).0 == key;
        assert(wanted(all[n]));
        all.lemma_filter_contains(wanted, n);
        let i = choose|i: int| 0 <= i < kept.len() && kept[i] == all[n];
        assert(dumped[i] == entry_of(kept[i]));
    }
}

// ---------------------------------------------------------------------------
// Secrets
// ---------------------------------------------------------------------------

/// Two sets of properties differ in the values of secrets at most.
pub open spec fn alike(left: PropertyMap, right: PropertyMap) -> bool {
    &&& left.dom() == right.dom()
    &&& forall|key: Seq<char>|
        #[trigger]
        left.contains_key(key) && !is_secret(key) ==> left[key] == right[key]
}

/// Two sessions differ in the values of secrets at most.
pub open spec fn sessions_alike(left: SessionView, right: SessionView) -> bool {
    &&& left.input == right.input
    &&& left.destination == right.destination
    &&& left.live.state == right.live.state
    &&& left.live.error == right.live.error
    &&& left.live.frame_size == right.live.frame_size
    &&& alike(left.live.properties, right.live.properties)
}

/// What may be a session and what may be another differ in the values of secrets at most.
pub open spec fn opt_sessions_alike(left: Option<SessionView>, right: Option<SessionView>) -> bool {
    match (left, right) {
        (Some(left), Some(right)) => sessions_alike(left, right),
        (None, None) => true,
        _ => false,
    }
}

proof fn lemma_dumps_of_like_entries(
    left: Seq<PropertyPair>,
    right: Seq<PropertyPair>,
    filter: Option<KeyFilter>,
)
    requires
        left.len() == right.len(),
        forall|i: int|
            #![trigger left[i]]
            #![trigger right[i]]
            0 <= i < left.len() ==> left[i].0 == right[i].0 && (is_secret(left[i].0) || left[i].1
                == right[i].1),
    ensures
        dump(left, filter) == dump(right, filter),
    decreases left.len(),
{
    if left.len() == 0 {
        assert(left =~= right);
    } else {
        assert(left[left.len() - 1] == left.last());
        assert(right[right.len() - 1] == right.last());
        lemma_dumps_of_like_entries(left.drop_last(), right.drop_last(), filter);
        lemma_dump_of_one_more(left, filter);
        lemma_dump_of_one_more(right, filter);
    }
}

proof fn lemma_dumps_of_like_properties(
    left: PropertyMap,
    right: PropertyMap,
    filter: Option<KeyFilter>,
)
    requires
        left.dom().finite(),
        alike(left, right),
    ensures
        dump(in_key_order(left), filter) == dump(in_key_order(right), filter),
{
    finite_properties_have_a_listing(left);
    let listed = in_key_order(left);
    let other = Seq::new(listed.len(), |i: int| (listed[i].0, right[listed[i].0]));
    assert forall|i: int, j: int|
        #![trigger other[i], other[j]]
        0 <= i < j < other.len() implies key_before(other[i].0, other[j].0) by {
        assert(key_before(listed[i].0, listed[j].0));
    }
    assert forall|i: int| #![trigger other[i]] 0 <= i < other.len() implies right.contains_key(
        other[i].0,
    ) && right[other[i].0] == other[i].1 by {
        assert(left.contains_key(listed[i].0));
        assert(right.dom().contains(listed[i].0));
    }
    assert forall|key: Seq<char>| #[trigger] right.contains_key(key) implies has_key(
        other,
        key,
    ) by {
        assert(left.dom().contains(key));
        assert(left.contains_key(key));
        assert(has_key(listed, key));
        let i = choose|i: int| 0 <= i < listed.len() && (#[trigger] listed[i]).0 == key;
        assert(other[i].0 == key);
    }
    assert(lists(right, other));
    listing_is_in_key_order(right, other);
    assert forall|i: int|
        #![trigger listed[i]]
        #![trigger other[i]]
        0 <= i < listed.len() implies listed[i].0 == other[i].0 && (is_secret(listed[i].0)
        || listed[i].1 == other[i].1) by {
        assert(left.contains_key(listed[i].0));
    }
    lemma_dumps_of_like_entries(listed, other, filter);
}

/// Neither the destination of a session nor the detail on where it stands holds one of its secrets.
pub open spec fn is_clean(session: SessionView) -> bool {
    forall|i: int|
        0 <= i < secrets_in(session.live.properties).len() ==> {
            let secret = #[trigger] secrets_in(session.live.properties)[i];
            &&& !contains_text(session.destination, secret)
            &&& session.live.error matches Some(error) ==> !contains_text(error, secret)
        }
}

/// No step tells the value of a secret property: the step that follows a request, other than one to
/// connect, is the same for sessions that differ in the values of secrets at most, and the sessions
/// go on to differ in no more. For the status that is so while neither session's own texts hold one
/// of its secrets; what a status gives of texts that do, [`statuses_hold_no_secret`] says.
pub proof fn steps_tell_nothing_of_secrets(
    left: Option<SessionView>,
    right: Option<SessionView>,
    lines: Seq<Seq<char>>,
    request: Request,
)
    requires
        request !is Connect,
        request is Status ==> (left matches Some(session) ==> is_clean(session)) && (
        right matches Some(session) ==> is_clean(session)),
        left matches Some(session) ==> session.live.properties.dom().finite(),
        opt_sessions_alike(left, right),
    ensures
        answered(left, lines, request).1 == answered(right, lines, request).1,
        opt_sessions_alike(
            answered(left, lines, request).0,
            answered(right, lines, request).0,
        ),
{
    if let (Some(left), Some(right)) = (left, right) {
        if let Request::DumpProperties { filter } = request {
            lemma_dumps_of_like_properties(left.live.properties, right.live.properties, filter);
        }
        if request is Status {
            clean_statuses_are_verbatim(left);
            clean_statuses_are_verbatim(right);
        }
    }
}

/// A status gives the texts of a session as they are where they hold none of its secrets.
pub proof fn clean_statuses_are_verbatim(session: SessionView)
    requires
        is_clean(session),
    ensures
        status_of(Some(session)).destination == Some(session.destination),
        status_of(Some(session)).message == session.live.error,
{
    let secrets = secrets_in(session.live.properties);
    assert forall|i: int| 0 <= i < secrets.len() implies !contains_text(
        session.destination,
        #[trigger] secrets[i],
    ) by {}
    clean_lines_stay(session.destination, secrets);
    if let Some(error) = session.live.error {
        assert forall|i: int| 0 <= i < secrets.len() implies !contains_text(
            error,
            #[trigger] secrets[i],
        ) by {}
        clean_lines_stay(error, secrets);
    }
}

/// A status shows no secret: whatever the texts of a session say, neither the message nor the
/// destination in its status holds a secret, text or number, that its properties hold and that is
/// clear of [`REDACTED`].
pub proof fn statuses_hold_no_secret(session: SessionView, key: Seq<char>)
    requires
        session.live.properties.dom().finite(),
        session.live.properties.contains_key(key),
        secret_text((key, session.live.properties[key])) matches Some(secret) && clear_of(
            secret,
            REDACTED@,
        ),
    ensures
        ({
            let secret = secret_text((key, session.live.properties[key]))->0;
            &&& status_of(Some(session)).message matches Some(message) ==> !contains_text(
                message,
                secret,
            )
            &&& status_of(Some(session)).destination matches Some(destination) && !contains_text(
                destination,
                secret,
            )
        }),
{
    scrubbed_texts_hold_no_secret(session.live.properties, key, session.destination);
    if let Some(error) = session.live.error {
        scrubbed_texts_hold_no_secret(session.live.properties, key, error);
    }
}

/// Sessions that differ in the values of secrets at most differ in no more after the same event.
pub proof fn events_tell_nothing_of_secrets(
    left: SessionView,
    right: SessionView,
    event: OutputEvent,
)
    requires
        sessions_alike(left, right),
    ensures
        sessions_alike(
            SessionView { live: after_output(left.live, event), ..left },
            SessionView { live: after_output(right.live, event), ..right },
        ),
{
    let after = after_output(left.live, event).properties;
    let other = after_output(right.live, event).properties;
    assert(after.dom() =~= other.dom());
    assert forall|key: Seq<char>| #[trigger]
        after.contains_key(key) && !is_secret(key) implies after[key] == other[key] by {
        if left.live.properties.contains_key(key) {
            assert(left.live.properties[key] == right.live.properties[key]);
        }
    }
}

/// A secret among the properties that a session is opened with, text or number, does not stand
/// verbatim in any line that is retained afterwards, if it is clear of [`REDACTED`].
pub proof fn secrets_of_opened_sessions_are_never_retained(
    known: Seq<Seq<char>>,
    properties: PropertyMap,
    built: Result<(Config, Seq<char>), Seq<char>>,
    key: Seq<char>,
    line: Seq<char>,
)
    requires
        all_texts(known),
        properties.dom().finite(),
        opening(properties, built) is Open,
        properties.contains_key(key),
        secret_text((key, properties[key])) matches Some(secret) && clear_of(secret, REDACTED@),
    ensures
        !contains_text(
            scrubbed(line, secrets_after(known, properties, opening(properties, built))),
            secret_text((key, properties[key]))->0,
        ),
{
    finite_properties_have_a_listing(properties);
    let all = in_key_order(properties);
    assert(has_key(all, key));
    let at = choose|at: int| 0 <= at < all.len() && (#[trigger] all[at]).0 == key;
    assert(all[at] == (key, properties[key]));
    registered_secrets_are_never_retained(known, all, at, line);
}

// ---------------------------------------------------------------------------
// The life of a session
// ---------------------------------------------------------------------------

/// Without a session there is none to report on, close, show or send input to, and asking changes
/// nothing: the status says so, and what needs a session fails.
pub proof fn without_a_session_only_status_and_logs_are_answered(
    lines: Seq<Seq<char>>,
    request: Request,
)
    requires
        request !is Connect,
        request !is QueryLogs,
    ensures
        answered(None, lines, request).0 is None,
        request is Status ==> answered(None, lines, request).1 == StepView::Reply(
            ResponseView::Success(PayloadView::Status(status_of(None))),
        ) && status_of(None).state is NoSession,
        request !is Status ==> answered(None, lines, request).1 == StepView::Reply(no_session()),
{
}

/// Asking for the status, properties, log lines or the size of a frame changes nothing.
pub proof fn questions_change_nothing(
    session: Option<SessionView>,
    lines: Seq<Seq<char>>,
    request: Request,
)
    requires
        request is Status || request is DumpProperties || request is QueryLogs
            || request is Screenshot,
    ensures
        answered(session, lines, request).0 == session,
{
}

/// A session never reports that there is none: it starts out connecting, and neither an event nor a
/// request makes it say so.
pub proof fn sessions_report_themselves(
    session: SessionView,
    lines: Seq<Seq<char>>,
    request: Request,
    event: OutputEvent,
)
    requires
        request !is Connect,
        session.live.state !is NoSession,
    ensures
        just_opened(session.live.properties).state is Connecting,
        after_output(session.live, event).state !is NoSession,
        answered(Some(session), lines, request).0 matches Some(after) && after.live.state
            !is NoSession,
{
}

/// A session that was started is the current one: it is the one whose status is reported, and whose
/// events are followed from then on.
pub proof fn started_sessions_are_current(
    daemon: DaemonView,
    session: SessionView,
    event: OutputEvent,
)
    ensures
        started(daemon, session, Ok(())).0.session == Some(session),
        followed(
            started(daemon, session, Ok(())).0,
            started(daemon, session, Ok(())).0.session_id,
            event,
        ).session == Some(SessionView { live: after_output(session.live, event), ..session }),
{
}

/// An event of the session that was replaced changes nothing of the one that replaced it.
pub proof fn events_of_replaced_sessions_are_not_followed(
    daemon: DaemonView,
    session: SessionView,
    event: OutputEvent,
)
    ensures
        next_id(daemon.session_id) != daemon.session_id,
        followed(started(daemon, session, Ok(())).0, daemon.session_id, event) == started(
            daemon,
            session,
            Ok(()),
        ).0,
{
}

/// A session whose engine could not be started leaves the daemon as it was.
pub proof fn failed_starts_change_nothing(
    daemon: DaemonView,
    session: SessionView,
    error: Seq<char>,
)
    ensures
        started(daemon, session, Err(error)).0 == daemon,
        started(daemon, session, Err(error)).1 is Failure,
{
}

/// A session that was closed says so, keeps everything else, and is closed no further by closing it
/// again.
pub proof fn closed_sessions_say_so(session: SessionView)
    ensures
        status_of(closing(Some(session)).0).state is Disconnected,
        status_of(closing(Some(session)).0).destination == status_of(Some(session)).destination,
        closing(closing(Some(session)).0) == closing(Some(session)),
        closing(Some(session)).0 matches Some(after) && after.live.properties
            == session.live.properties && after.live.frame_size == session.live.frame_size,
{
}

/// A frame makes the session a connected one of its size: the status, the answer on the most recent
/// frame and the properties all give it, whatever was known before.
pub proof fn frames_set_the_size(session: SessionView, width: u16, height: u16)
    ensures
        ({
            let after = Some(
                SessionView {
                    live: after_output(session.live, OutputEvent::Image { width, height }),
                    ..session
                },
            );
            &&& status_of(after).state is Connected
            &&& status_of(after).width == Some(width)
            &&& status_of(after).height == Some(height)
            &&& status_of(after).message is None
            &&& screenshot_answer(after) == ResponseView::Success(
                PayloadView::Screenshot(width, height),
            )
            &&& after->0.live.properties["desktopwidth"@] == PropertyValue::Int(width as i64)
            &&& after->0.live.properties["desktopheight"@] == PropertyValue::Int(height as i64)
        }),
{
    reveal_strlit("desktopwidth");
    reveal_strlit("desktopheight");
    assert("desktopwidth"@.len() != "desktopheight"@.len());
}

/// Events keep what is known of a session coherent. The size of the most recent frame is the one
/// that the properties give, after any event; and after one that the engine can report it is that
/// of a frame, too.
pub proof fn events_keep_what_is_known_coherent(live: LiveView, event: OutputEvent)
    ensures
        live.size_agrees() ==> after_output(live, event).size_agrees(),
        live.well_formed() && event.is_possible() ==> after_output(live, event).well_formed(),
{
    reveal_strlit("desktopwidth");
    reveal_strlit("desktopheight");
    assert("desktopwidth"@.len() != "desktopheight"@.len());
}

/// A session that was just opened is coherent.
pub proof fn opened_sessions_are_coherent(properties: PropertyMap)
    ensures
        just_opened(properties).well_formed(),
{
}

/// No event adds, removes or changes a property other than the negotiated width and height.
pub proof fn events_change_no_other_property(live: LiveView, event: OutputEvent, key: Seq<char>)
    requires
        key != "desktopwidth"@,
        key != "desktopheight"@,
    ensures
        after_output(live, event).properties.contains_key(key) == live.properties.contains_key(key),
        after_output(live, event).properties[key] == live.properties[key],
{
}

/// No event but a frame changes the properties or the size of the most recent frame.
pub proof fn only_frames_change_properties(live: LiveView, event: OutputEvent)
    requires
        event !is Image,
    ensures
        after_output(live, event).properties == live.properties,
        after_output(live, event).frame_size == live.frame_size,
{
}

} // verus!
