//! What holds of the tag extractor on every input.

use vstd::prelude::*;
use crate::error::XmlError;
use crate::event::{stream, EventView};
use crate::extract::{capture_outcome, capture_run, captured_tag};
use crate::tag::TagView;

verus! {

/// How many occurrences of the searched element are open, one in another,
/// after a run of events. A closing tag with none open changes nothing.
pub open spec fn open_occurrences(events: Seq<EventView>, search: Seq<u8>) -> nat
    decreases events.len(),
{
    if events.len() == 0 {
        0
    } else {
        let before = open_occurrences(events.drop_last(), search);
        match events.last() {
            EventView::Start(el) => if el.name == search {
                before + 1
            } else {
                before
            },
            EventView::End(name) => if name == search && before > 0 {
                (before - 1) as nat
            } else {
                before
            },
            _ => before,
        }
    }
}

/// How many occurrences of the searched element that stand in no other were
/// opened and closed in a run of events.
pub open spec fn occurrences(events: Seq<EventView>, search: Seq<u8>) -> nat
    decreases events.len(),
{
    if events.len() == 0 {
        0
    } else {
        let before = occurrences(events.drop_last(), search);
        match events.last() {
            EventView::End(name) => if name == search && open_occurrences(
                events.drop_last(),
                search,
            ) == 1 {
                before + 1
            } else {
                before
            },
            _ => before,
        }
    }
}

/// Whether every closing tag of the searched element closes an occurrence
/// that stands in no other.
pub open spec fn closes_top_level_only(events: Seq<EventView>, search: Seq<u8>) -> bool {
    forall|i: int|
        0 <= i < events.len() && (#[trigger] events[i]) == EventView::End(search)
            ==> open_occurrences(events.take(i), search) == 1
}

/// The extractor gives one group for each occurrence of the searched
/// element, provided that the occurrences do not stand one in another and no
/// closing tag of that name is stray.
pub proof fn lemma_one_group_for_each_occurrence(events: Seq<EventView>, search: Seq<u8>)
    requires
        capture_outcome(events, search) is Ok,
        closes_top_level_only(stream(events), search),
    ensures
        capture_outcome(events, search)->Ok_0.len() == occurrences(stream(events), search),
{
    lemma_groups_count_occurrences(stream(events), search);
}

/// The same of a run of events.
proof fn lemma_groups_count_occurrences(events: Seq<EventView>, search: Seq<u8>)
    requires
        capture_run(events, search) is Ok,
        closes_top_level_only(events, search),
    ensures
        capture_run(events, search)->Ok_0.groups.len() == occurrences(events, search),
    decreases events.len(),
{
    if events.len() > 0 {
        let front = events.drop_last();
        assert forall|i: int|
            0 <= i < front.len() && (#[trigger] front[i]) == EventView::End(
                search,
            ) implies open_occurrences(front.take(i), search) == 1 by {
            assert(front.take(i) =~= events.take(i));
        }
        lemma_groups_count_occurrences(front, search);
    }
}

/// How many closing tags of the searched element a run of events holds.
pub open spec fn closings(events: Seq<EventView>, search: Seq<u8>) -> nat
    decreases events.len(),
{
    if events.len() == 0 {
        0
    } else {
        let before = closings(events.drop_last(), search);
        if events.last() == EventView::End(search) {
            before + 1
        } else {
            before
        }
    }
}

/// Whatever the input, the extractor gives one group for each closing tag
/// of the searched element.
pub proof fn lemma_one_group_for_each_closing(events: Seq<EventView>, search: Seq<u8>)
    requires
        capture_outcome(events, search) is Ok,
    ensures
        capture_outcome(events, search)->Ok_0.len() == closings(stream(events), search),
{
    lemma_groups_count_closings(stream(events), search);
}

/// The same of a run of events.
proof fn lemma_groups_count_closings(events: Seq<EventView>, search: Seq<u8>)
    requires
        capture_run(events, search) is Ok,
    ensures
        capture_run(events, search)->Ok_0.groups.len() == closings(events, search),
    decreases events.len(),
{
    if events.len() > 0 {
        lemma_groups_count_closings(events.drop_last(), search);
    }
}

/// The places in a run of events from which the extractor made its groups.
pub struct Sources {
    /// For each captured element of the open occurrence, its place.
    pub current: Seq<int>,
    /// The same for each group.
    pub groups: Seq<Seq<int>>,
    /// For each group, the place of the closing tag that ended it.
    pub closed_at: Seq<int>,
}

/// The places from which the extractor captured, after a run of events that
/// it takes without failure.
pub open spec fn sources(events: Seq<EventView>, search: Seq<u8>) -> Sources
    decreases events.len(),
{
    if events.len() == 0 {
        Sources { current: Seq::empty(), groups: Seq::empty(), closed_at: Seq::empty() }
    } else {
        let front = events.drop_last();
        let before = sources(front, search);
        match capture_run(front, search) {
            Ok(s) => match events.last() {
                EventView::Start(el) => if el.name == search {
                    Sources { current: Seq::empty(), ..before }
                } else {
                    before
                },
                EventView::Empty(_) => if s.inside && s.depth == 0 {
                    Sources { current: before.current.push(front.len() as int), ..before }
                } else {
                    before
                },
                EventView::End(name) => if name == search {
                    Sources {
                        current: Seq::empty(),
                        groups: before.groups.push(before.current),
                        closed_at: before.closed_at.push(front.len() as int),
                    }
                } else {
                    before
                },
                _ => before,
            },
            Err(_) => before,
        }
    }
}

/// Whether the event at `place` is a self-closing element that the
/// extractor meets inside an occurrence at depth zero, and that makes `tag`.
pub open spec fn is_source(events: Seq<EventView>, search: Seq<u8>, place: int, tag: TagView) -> bool {
    &&& 0 <= place < events.len()
    &&& events[place] matches EventView::Empty(el) && captured_tag(el) == Ok::<TagView, XmlError>(
        tag,
    )
    &&& capture_run(events.take(place), search) matches Ok(s) && s.inside && s.depth == 0
}

/// Whether `places` are, in rising order and all between `after` and
/// `before`, the sources of `tags`, one for one.
pub open spec fn are_sources_of(
    events: Seq<EventView>,
    search: Seq<u8>,
    places: Seq<int>,
    tags: Seq<TagView>,
    after: int,
    before: int,
) -> bool {
    &&& places.len() == tags.len()
    &&& forall|a: int|
        0 <= a < places.len() ==> after < (#[trigger] places[a]) < before && is_source(
            events,
            search,
            places[a],
            tags[a],
        )
    &&& forall|a: int, b: int|
        0 <= a < b < places.len() ==> (#[trigger] places[a]) < (#[trigger] places[b])
}

/// The place of the closing tag before group `g`, or -1 for the first.
pub open spec fn closed_before(from: Sources, g: int) -> int {
    if 0 < g <= from.closed_at.len() {
        from.closed_at[g - 1]
    } else {
        -1
    }
}

/// Whether group `g` is made of what stands between the closing tag before
/// it and its own: its closing tag stands after the one before, and its
/// entries are the tags of self-closing elements that stand between the two,
/// in the same order.
pub open spec fn group_follows(
    events: Seq<EventView>,
    search: Seq<u8>,
    from: Sources,
    groups: Seq<Seq<TagView>>,
    g: int,
) -> bool {
    &&& -1 <= closed_before(from, g) < from.closed_at[g] < events.len()
    &&& events[from.closed_at[g]] == EventView::End(search)
    &&& are_sources_of(
        events,
        search,
        from.groups[g],
        groups[g],
        closed_before(from, g),
        from.closed_at[g],
    )
}

/// Whether the groups are made, in document order, of what stands between
/// one closing tag of the searched element and the next.
pub open spec fn groups_follow_document(
    events: Seq<EventView>,
    search: Seq<u8>,
    from: Sources,
    groups: Seq<Seq<TagView>>,
) -> bool {
    &&& from.groups.len() == groups.len()
    &&& from.closed_at.len() == groups.len()
    &&& forall|g: int|
        0 <= g < groups.len() ==> #[trigger] group_follows(events, search, from, groups, g)
}

/// Whether the entries of the occurrence that is open are the tags of
/// self-closing elements that stand after the last closing tag, in the same
/// order.
pub open spec fn current_follows(
    events: Seq<EventView>,
    search: Seq<u8>,
    from: Sources,
    current: Seq<TagView>,
) -> bool {
    are_sources_of(
        events,
        search,
        from.current,
        current,
        closed_before(from, from.closed_at.len() as int),
        events.len() as int,
    )
}

/// Every group holds the tags of self-closing elements of the input that
/// the extractor met inside an occurrence at depth zero, in the order in
/// which they stand there, and the groups follow one another as their
/// closing tags do.
pub proof fn lemma_groups_keep_document_order(events: Seq<EventView>, search: Seq<u8>)
    requires
        capture_outcome(events, search) is Ok,
    ensures
        groups_follow_document(
            stream(events),
            search,
            sources(stream(events), search),
            capture_outcome(events, search)->Ok_0,
        ),
{
    lemma_capture_keeps_order(stream(events), search);
}

/// The same of a run of events, with the occurrence that is still open.
proof fn lemma_capture_keeps_order(events: Seq<EventView>, search: Seq<u8>)
    requires
        capture_run(events, search) is Ok,
    ensures
        groups_follow_document(
            events,
            search,
            sources(events, search),
            capture_run(events, search)->Ok_0.groups,
        ),
        current_follows(
            events,
            search,
            sources(events, search),
            capture_run(events, search)->Ok_0.current,
        ),
    decreases events.len(),
{
    if events.len() > 0 {
        let front = events.drop_last();
        let n = events.len() as int;
        lemma_capture_keeps_order(front, search);
        let s0 = capture_run(front, search)->Ok_0;
        let f0 = sources(front, search);
        let s = capture_run(events, search)->Ok_0;
        let from = sources(events, search);
        let count = s0.groups.len() as int;
        let last = closed_before(f0, count);
        assert(-1 <= last < n - 1) by {
            if count > 0 {
                assert(group_follows(front, search, f0, s0.groups, count - 1));
            }
        }
        lemma_sources_stay(events, search, f0.current, s0.current, last, n - 1);
        assert forall|g: int| 0 <= g < count implies group_follows(
            events,
            search,
            f0,
            s0.groups,
            g,
        ) by {
            assert(group_follows(front, search, f0, s0.groups, g));
            lemma_sources_stay(
                events,
                search,
                f0.groups[g],
                s0.groups[g],
                closed_before(f0, g),
                f0.closed_at[g],
            );
        }
        if events.last() == EventView::End(search) {
            assert forall|g: int| 0 <= g < s.groups.len() implies group_follows(
                events,
                search,
                from,
                s.groups,
                g,
            ) by {
                if g < count {
                    assert(group_follows(events, search, f0, s0.groups, g));
                }
            }
        } else {
            assert forall|g: int| 0 <= g < s.groups.len() implies group_follows(
                events,
                search,
                from,
                s.groups,
                g,
            ) by {
                assert(group_follows(events, search, f0, s0.groups, g));
            }
            lemma_sources_reach(events, search, f0.current, s0.current, last, n - 1, n);
            match events.last() {
                EventView::Empty(el) => {
                    if s0.inside && s0.depth == 0 {
                        let tag = captured_tag(el)->Ok_0;
                        assert(events.take(n - 1) =~= front);
                        lemma_sources_grow(
                            events,
                            search,
                            f0.current,
                            s0.current,
                            last,
                            n - 1,
                            tag,
                        );
                    }
                },
                _ => {},
            }
        }
    }
}

/// Sources among a run of events are sources among a longer run.
proof fn lemma_sources_stay(
    events: Seq<EventView>,
    search: Seq<u8>,
    places: Seq<int>,
    tags: Seq<TagView>,
    after: int,
    before: int,
)
    requires
        events.len() > 0,
        before < events.len(),
        are_sources_of(events.drop_last(), search, places, tags, after, before),
    ensures
        are_sources_of(events, search, places, tags, after, before),
{
    let front = events.drop_last();
    assert forall|a: int| 0 <= a < places.len() implies is_source(
        events,
        search,
        #[trigger] places[a],
        tags[a],
    ) by {
        assert(events.take(places[a]) =~= front.take(places[a]));
    }
}

/// Sources in front of one place are sources in front of a later one.
proof fn lemma_sources_reach(
    events: Seq<EventView>,
    search: Seq<u8>,
    places: Seq<int>,
    tags: Seq<TagView>,
    after: int,
    before: int,
    later: int,
)
    requires
        before <= later,
        are_sources_of(events, search, places, tags, after, before),
    ensures
        are_sources_of(events, search, places, tags, after, later),
{
}

/// One more source behind the others.
proof fn lemma_sources_grow(
    events: Seq<EventView>,
    search: Seq<u8>,
    places: Seq<int>,
    tags: Seq<TagView>,
    after: int,
    place: int,
    tag: TagView,
)
    requires
        after < place < events.len(),
        are_sources_of(events, search, places, tags, after, place),
        is_source(events, search, place, tag),
    ensures
        are_sources_of(
            events,
            search,
            places.push(place),
            tags.push(tag),
            after,
            events.len() as int,
        ),
{
}

} // verus!
