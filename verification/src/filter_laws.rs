//! What holds of the tag filter on every input.

use vstd::prelude::*;
use crate::error::XmlError;
use crate::event::{is_terminal, lemma_stream_holds, lemma_stream_len, stream, EventView};
use crate::filter::{
    empty_tag, end_tag, filter_outcome, filter_run, filter_step, lemma_filter_fails_for_good,
    start_tag, tag_line, FilterState,
};

verus! {

/// The depth of the filter never goes below zero.
pub proof fn lemma_depth_is_never_negative(events: Seq<EventView>, names: Set<Seq<u8>>)
    ensures
        filter_run(events, names) matches Some(s) ==> s.depth >= 0,
    decreases events.len(),
{
    if events.len() > 0 {
        lemma_depth_is_never_negative(events.drop_last(), names);
    }
}

/// Whether the filter writes the event when it meets it in state `s`.
pub open spec fn is_written(s: FilterState, e: EventView, names: Set<Seq<u8>>) -> bool {
    s.depth == 0 && match e {
        EventView::Start(el) => !names.contains(el.name),
        EventView::Empty(el) => !names.contains(el.name),
        EventView::End(_) => true,
        EventView::Text(_) => true,
        _ => false,
    }
}

/// The events that the filter writes, in order.
pub open spec fn retained(events: Seq<EventView>, names: Set<Seq<u8>>) -> Seq<EventView>
    decreases events.len(),
{
    if events.len() == 0 {
        Seq::empty()
    } else {
        let before = retained(events.drop_last(), names);
        match filter_run(events.drop_last(), names) {
            Some(s) => if is_written(s, events.last(), names) {
                before.push(events.last())
            } else {
                before
            },
            None => before,
        }
    }
}

/// Opening tags less closing tags.
pub open spec fn nesting(events: Seq<EventView>) -> int
    decreases events.len(),
{
    if events.len() == 0 {
        0
    } else {
        nesting(events.drop_last()) + match events.last() {
            EventView::Start(_) => 1int,
            EventView::End(_) => -1int,
            _ => 0int,
        }
    }
}

/// Inside a deleted subtree the depth is the nesting since its root, and
/// nothing is written: where the filter stands outside any deleted subtree
/// before `events[root]`, that event opens an element with a listed name,
/// and the element is not closed before `events[at]`, the depth after the
/// events before `at` is the number of elements opened since, root included,
/// less the number closed, while the output, the open elements and the
/// retained events are what they were before the root. So at the closing
/// tag that matches the root the depth is back at exactly zero.
pub proof fn lemma_depth_follows_nesting(
    events: Seq<EventView>,
    names: Set<Seq<u8>>,
    root: int,
    at: int,
)
    requires
        0 <= root < at <= events.len(),
        filter_run(events.take(root), names) matches Some(s) && s.depth == 0,
        events[root] matches EventView::Start(el) && names.contains(el.name),
        forall|j: int| root < j < at ==> nesting(#[trigger] events.subrange(root, j)) > 0,
        forall|j: int| root < j < at ==> !((#[trigger] events[j]) is Malformed),
    ensures
        filter_run(events.take(at), names) matches Some(s) && s.depth == nesting(
            events.subrange(root, at),
        ) && s.output == filter_run(events.take(root), names)->0.output && s.open == filter_run(
            events.take(root),
            names,
        )->0.open,
        retained(events.take(at), names) == retained(events.take(root), names),
    decreases at - root,
{
    assert(events.take(at).drop_last() =~= events.take(at - 1));
    assert(events.subrange(root, at).drop_last() =~= events.subrange(root, at - 1));
    if at == root + 1 {
        assert(events.subrange(root, root).len() == 0);
    } else {
        lemma_depth_follows_nesting(events, names, root, at - 1);
    }
}

/// `head` in front of `rest`, where there is a rest.
pub open spec fn joined(head: Seq<u8>, rest: Option<Seq<u8>>) -> Option<Seq<u8>> {
    match rest {
        Some(tail) => Some(head + tail),
        None => None,
    }
}

/// A run of events written out with one tag per line, inside the elements
/// named in `open`: each tag is indented by the number of elements open
/// around it, text stands as it is, and markup of other kinds is left out.
/// Writing stops at `Eof`. `None` where a closing tag does not close the
/// innermost open element, or the run holds `Malformed`.
pub open spec fn reformat_from(events: Seq<EventView>, open: Seq<Seq<u8>>) -> Option<Seq<u8>>
    decreases events.len(),
{
    if events.len() == 0 {
        Some(Seq::empty())
    } else {
        let rest = events.skip(1);
        match events[0] {
            EventView::Start(el) => joined(
                tag_line(open.len(), start_tag(el.content)),
                reformat_from(rest, open.push(el.name)),
            ),
            EventView::End(name) => if open.len() > 0 && open.last() == name {
                joined(
                    tag_line((open.len() - 1) as nat, end_tag(name)),
                    reformat_from(rest, open.drop_last()),
                )
            } else {
                None
            },
            EventView::Empty(el) => joined(
                tag_line(open.len(), empty_tag(el.content)),
                reformat_from(rest, open),
            ),
            EventView::Text(text) => joined(text, reformat_from(rest, open)),
            EventView::Other => reformat_from(rest, open),
            EventView::Eof => Some(Seq::empty()),
            EventView::Malformed => None,
        }
    }
}

/// A document written out anew, with nothing left out.
pub open spec fn reformat(events: Seq<EventView>) -> Result<Seq<u8>, XmlError> {
    match reformat_from(events, Seq::empty()) {
        Some(out) => Ok(out),
        None => Err(XmlError::MalformedXml),
    }
}

/// What the filter has written at the end of the stream, if it did not fail.
spec fn written(events: Seq<EventView>, names: Set<Seq<u8>>) -> Option<Seq<u8>> {
    match filter_run(stream(events), names) {
        Some(s) => Some(s.output),
        None => None,
    }
}

/// With nothing listed, what the filter writes after the first `k` events
/// is the rest written out anew.
proof fn lemma_reformat_goes_on(events: Seq<EventView>, k: int)
    requires
        0 <= k <= events.len(),
        forall|j: int| 0 <= j < k ==> !is_terminal(#[trigger] events[j]),
        filter_run(events.take(k), Set::empty()) matches Some(s) && s.depth == 0,
    ensures
        written(events, Set::empty()) == joined(
            filter_run(events.take(k), Set::empty())->0.output,
            reformat_from(events.skip(k), filter_run(events.take(k), Set::empty())->0.open),
        ),
    decreases events.len() - k,
{
    let names = Set::<Seq<u8>>::empty();
    let s = filter_run(events.take(k), names)->0;
    if k == events.len() {
        lemma_stream_len(events, k);
        assert(events.take(k) =~= events);
    } else {
        let e = events[k];
        assert(events.take(k + 1).drop_last() =~= events.take(k));
        assert(events.skip(k).skip(1) =~= events.skip(k + 1));
        if is_terminal(e) {
            lemma_stream_len(events, k);
        } else {
            match filter_step(s, e, names) {
                None => {
                    lemma_stream_holds(events, k + 1);
                    lemma_filter_fails_for_good(events, names, k + 1, stream(events).len() as int);
                },
                Some(_) => {
                    lemma_reformat_goes_on(events, k + 1);
                },
            }
        }
    }
}

/// With nothing to delete, filtering is writing the document out anew.
pub proof fn lemma_filter_of_nothing_is_reformat(events: Seq<EventView>)
    ensures
        filter_outcome(events, Set::empty()) == reformat(events),
{
    assert(events.skip(0) =~= events);
    lemma_reformat_goes_on(events, 0);
}

/// The name that an event carries, if it is a tag.
pub open spec fn event_name(e: EventView) -> Option<Seq<u8>> {
    match e {
        EventView::Start(el) => Some(el.name),
        EventView::End(name) => Some(name),
        EventView::Empty(el) => Some(el.name),
        _ => None,
    }
}

/// No element that the filter holds open has a listed name.
proof fn lemma_open_names_are_unlisted(events: Seq<EventView>, names: Set<Seq<u8>>)
    ensures
        filter_run(events, names) matches Some(s) ==> forall|k: int|
            0 <= k < s.open.len() ==> !names.contains(#[trigger] s.open[k]),
    decreases events.len(),
{
    if events.len() > 0 {
        lemma_open_names_are_unlisted(events.drop_last(), names);
    }
}

/// Where the filter succeeds, no tag that it writes carries a listed name:
/// neither an opening, nor a closing, nor a self-closing one.
pub proof fn lemma_retained_names_are_unlisted(
    events: Seq<EventView>,
    names: Set<Seq<u8>>,
    k: int,
)
    requires
        filter_run(events, names) is Some,
        0 <= k < retained(events, names).len(),
    ensures
        event_name(retained(events, names)[k]) matches Some(name) ==> !names.contains(name),
    decreases events.len(),
{
    let before = retained(events.drop_last(), names);
    if k < before.len() {
        lemma_retained_names_are_unlisted(events.drop_last(), names, k);
    } else {
        lemma_open_names_are_unlisted(events.drop_last(), names);
    }
}

/// Every event that the filter writes is an event of the input that it met
/// outside any deleted subtree; the result is such a place of the `k`-th.
/// So a name that the input holds only inside deleted subtrees is not
/// written.
pub proof fn lemma_retained_comes_from_outside(
    events: Seq<EventView>,
    names: Set<Seq<u8>>,
    k: int,
) -> (i: int)
    requires
        0 <= k < retained(events, names).len(),
    ensures
        0 <= i < events.len(),
        events[i] == retained(events, names)[k],
        filter_run(events.take(i), names) matches Some(s) && s.depth == 0,
    decreases events.len(),
{
    let front = events.drop_last();
    let before = retained(front, names);
    if k < before.len() {
        let i = lemma_retained_comes_from_outside(front, names, k);
        assert(front.take(i) =~= events.take(i));
        i
    } else {
        events.len() - 1
    }
}

/// The retained events hold no terminal event.
proof fn lemma_retained_is_a_stream(events: Seq<EventView>, names: Set<Seq<u8>>)
    ensures
        forall|j: int|
            0 <= j < retained(events, names).len() ==> !is_terminal(
                #[trigger] retained(events, names)[j],
            ),
        stream(retained(events, names)) == retained(events, names),
    decreases events.len(),
{
    let kept = retained(events, names);
    if events.len() > 0 {
        lemma_retained_is_a_stream(events.drop_last(), names);
    }
    lemma_stream_holds(kept, kept.len() as int);
}

/// Filtering the retained events alone, with the same names or with none,
/// writes what the filter wrote and retains them all.
proof fn lemma_retained_alone(events: Seq<EventView>, names: Set<Seq<u8>>)
    requires
        filter_run(events, names) is Some,
    ensures
        filter_run(retained(events, names), names) == Some(
            FilterState { depth: 0, ..filter_run(events, names)->0 },
        ),
        filter_run(retained(events, names), Set::empty()) == Some(
            FilterState { depth: 0, ..filter_run(events, names)->0 },
        ),
        retained(retained(events, names), names) == retained(events, names),
    decreases events.len(),
{
    if events.len() > 0 {
        let front = events.drop_last();
        let e = events.last();
        let s = filter_run(front, names)->0;
        let before = retained(front, names);
        lemma_retained_alone(front, names);
        lemma_depth_is_never_negative(front, names);
        if is_written(s, e, names) {
            let kept = before.push(e);
            assert(kept.drop_last() =~= before);
        }
    }
}

/// What the filter writes is the retained events written out anew.
pub proof fn lemma_output_is_the_retained_reformatted(
    events: Seq<EventView>,
    names: Set<Seq<u8>>,
)
    requires
        filter_outcome(events, names) is Ok,
    ensures
        filter_outcome(events, names) == reformat(retained(stream(events), names)),
{
    let kept = retained(stream(events), names);
    lemma_retained_alone(stream(events), names);
    lemma_retained_is_a_stream(stream(events), names);
    lemma_filter_of_nothing_is_reformat(kept);
}

/// A second pass changes nothing: filtering what a first pass retained,
/// with the same names, retains all of it and writes the same document.
pub proof fn lemma_second_pass_changes_nothing(events: Seq<EventView>, names: Set<Seq<u8>>)
    requires
        filter_outcome(events, names) is Ok,
    ensures
        retained(retained(stream(events), names), names) == retained(stream(events), names),
        filter_outcome(retained(stream(events), names), names) == filter_outcome(events, names),
{
    lemma_retained_alone(stream(events), names);
    lemma_retained_is_a_stream(stream(events), names);
}

} // verus!
