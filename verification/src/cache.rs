//! The session cache as a value: what is remembered about each session log,
//! keyed by the log's path, and the operations that look an entry up, put
//! one in and take one out.
//!
//! The cache is an association list that holds each path at most once. Its
//! order is the order in which paths were first cached; it is the order in
//! which the cache's sessions contribute to the ledger. That order has to be
//! the same from one cycle to the next, or records that share a timestamp
//! would change places in the ledger; a hash map has no such order to offer.

use vstd::prelude::*;
use vstd::string::*;

use crate::clock::ClockTime;
use crate::session::{limits_view, CodexRateLimits, RateLimitsView};

verus! {

/// A cheap stand-in for a file's contents: when it was last modified and how
/// long it is.
#[derive(Clone, Copy, Debug, PartialEq, Eq, Structural)]
pub struct SessionFingerprint {
    pub modified: ClockTime,
    pub file_len: u64,
}

/// The facts last parsed from a session log, with the fingerprint of the
/// file that produced them.
#[derive(Debug)]
pub struct CachedCodexSession {
    pub modified: ClockTime,
    pub file_len: u64,
    pub timestamp: String,
    pub input_tokens: u64,
    pub output_tokens: u64,
    pub has_token_usage: bool,
    pub limits: Option<CodexRateLimits>,
}

/// The value of a [`CachedCodexSession`].
pub struct CachedSessionView {
    pub modified: ClockTime,
    pub file_len: u64,
    pub timestamp: Seq<char>,
    pub input_tokens: u64,
    pub output_tokens: u64,
    pub has_token_usage: bool,
    pub limits: Option<RateLimitsView>,
}

impl CachedSessionView {
    /// The fingerprint of the file these facts were parsed from.
    pub open spec fn fingerprint(self) -> SessionFingerprint {
        SessionFingerprint { modified: self.modified, file_len: self.file_len }
    }
}

impl View for CachedCodexSession {
    type V = CachedSessionView;

    open spec fn view(&self) -> CachedSessionView {
        CachedSessionView {
            modified: self.modified,
            file_len: self.file_len,
            timestamp: self.timestamp@,
            input_tokens: self.input_tokens,
            output_tokens: self.output_tokens,
            has_token_usage: self.has_token_usage,
            limits: limits_view(self.limits),
        }
    }
}

/// One entry of the cache: a path and what is cached for it.
#[derive(Debug)]
pub struct SessionSlot {
    pub path: String,
    pub session: CachedCodexSession,
}

/// The value of a [`SessionSlot`].
pub struct SlotView {
    pub path: Seq<char>,
    pub session: CachedSessionView,
}

impl View for SessionSlot {
    type V = SlotView;

    open spec fn view(&self) -> SlotView {
        SlotView { path: self.path@, session: self.session@ }
    }
}

/// The values of a sequence of slots.
pub open spec fn slot_views(slots: Seq<SessionSlot>) -> Seq<SlotView> {
    Seq::new(slots.len(), |i: int| slots[i]@)
}

/// The values of a sequence of paths.
pub open spec fn path_views(paths: Seq<String>) -> Seq<Seq<char>> {
    Seq::new(paths.len(), |i: int| paths[i]@)
}

/// No path has two slots.
pub open spec fn distinct_paths(slots: Seq<SlotView>) -> bool {
    forall|i: int, j: int|
        0 <= i < slots.len() && 0 <= j < slots.len() && i != j ==> (#[trigger] slots[i]).path != (
        #[trigger] slots[j]).path
}

/// Some slot is for `path`.
pub open spec fn has_path(slots: Seq<SlotView>, path: Seq<char>) -> bool {
    exists|i: int| 0 <= i < slots.len() && (#[trigger] slots[i]).path == path
}

/// The index of a slot for `path`, where there is one.
pub open spec fn slot_of(slots: Seq<SlotView>, path: Seq<char>) -> int {
    choose|i: int| 0 <= i < slots.len() && (#[trigger] slots[i]).path == path
}

/// What is cached for `path`.
pub open spec fn cached(slots: Seq<SlotView>, path: Seq<char>) -> Option<CachedSessionView> {
    if has_path(slots, path) {
        Some(slots[slot_of(slots, path)].session)
    } else {
        None
    }
}

/// The cache without an entry for `path`.
pub open spec fn without_path(slots: Seq<SlotView>, path: Seq<char>) -> Seq<SlotView> {
    if has_path(slots, path) {
        slots.remove(slot_of(slots, path))
    } else {
        slots
    }
}

/// The cache with `session` as the entry for `path`: in place of the entry
/// that was there, or else behind all others.
pub open spec fn with_session(
    slots: Seq<SlotView>,
    path: Seq<char>,
    session: CachedSessionView,
) -> Seq<SlotView> {
    if has_path(slots, path) {
        slots.update(slot_of(slots, path), SlotView { path, session })
    } else {
        slots.push(SlotView { path, session })
    }
}

/// Where paths are distinct, a slot for a path is the slot for that path.
pub proof fn lemma_slot_unique(slots: Seq<SlotView>, i: int)
    requires
        distinct_paths(slots),
        0 <= i < slots.len(),
    ensures
        has_path(slots, slots[i].path),
        slot_of(slots, slots[i].path) == i,
        cached(slots, slots[i].path) == Some(slots[i].session),
{
    let path = slots[i].path;
    let j = slot_of(slots, path);
    assert(0 <= j < slots.len() && slots[j].path == path);
}

/// Taking a path out keeps the paths distinct, forgets that path and leaves
/// every other path as it was.
pub proof fn lemma_without_path(slots: Seq<SlotView>, path: Seq<char>)
    requires
        distinct_paths(slots),
    ensures
        distinct_paths(without_path(slots, path)),
        !has_path(without_path(slots, path), path),
        forall|other: Seq<char>|
            other != path ==> #[trigger] cached(without_path(slots, path), other) == cached(
                slots,
                other,
            ),
        forall|other: Seq<char>|
            other != path ==> #[trigger] has_path(without_path(slots, path), other) == has_path(
                slots,
                other,
            ),
{
    let out = without_path(slots, path);
    if has_path(slots, path) {
        let p = slot_of(slots, path);
        assert(0 <= p < slots.len() && slots[p].path == path);
        assert forall|k: int| 0 <= k < out.len() implies #[trigger] out[k] == slots[if k < p {
            k
        } else {
            k + 1
        }] by {}
        assert(distinct_paths(out)) by {
            assert forall|i: int, j: int|
                0 <= i < out.len() && 0 <= j < out.len() && i != j implies (#[trigger] out[i]).path
                != (#[trigger] out[j]).path by {
                let si = if i < p {
                    i
                } else {
                    i + 1
                };
                let sj = if j < p {
                    j
                } else {
                    j + 1
                };
                assert(out[i] == slots[si]);
                assert(out[j] == slots[sj]);
            }
        }
        assert(!has_path(out, path)) by {
            if has_path(out, path) {
                let k = slot_of(out, path);
                assert(0 <= k < out.len() && out[k].path == path);
                let sk = if k < p {
                    k
                } else {
                    k + 1
                };
                assert(out[k] == slots[sk]);
            }
        }
        assert forall|other: Seq<char>| other != path implies (#[trigger] has_path(out, other)
            == has_path(slots, other)) && cached(out, other) == cached(slots, other) by {
            if has_path(slots, other) {
                let s = slot_of(slots, other);
                assert(0 <= s < slots.len() && slots[s].path == other);
                let k = if s < p {
                    s
                } else {
                    s - 1
                };
                assert(out[k] == slots[s]);
                assert(has_path(out, other));
                lemma_slot_unique(out, k);
            } else if has_path(out, other) {
                let k = slot_of(out, other);
                assert(0 <= k < out.len() && out[k].path == other);
                let sk = if k < p {
                    k
                } else {
                    k + 1
                };
                assert(out[k] == slots[sk]);
                assert(has_path(slots, other));
            }
        }
    }
}

/// Putting a session in keeps the paths distinct, caches it for that path
/// and leaves every other path as it was.
pub proof fn lemma_with_session(slots: Seq<SlotView>, path: Seq<char>, session: CachedSessionView)
    requires
        distinct_paths(slots),
    ensures
        distinct_paths(with_session(slots, path, session)),
        cached(with_session(slots, path, session), path) == Some(session),
        forall|other: Seq<char>|
            other != path ==> #[trigger] cached(with_session(slots, path, session), other)
                == cached(slots, other),
        forall|other: Seq<char>|
            #[trigger] has_path(with_session(slots, path, session), other) == (other == path
                || has_path(slots, other)),
{
    let out = with_session(slots, path, session);
    let p = if has_path(slots, path) {
        slot_of(slots, path)
    } else {
        slots.len() as int
    };
    if has_path(slots, path) {
        assert(0 <= p < slots.len() && slots[p].path == path);
    }
    assert(out.len() > p && out[p] == (SlotView { path, session }));
    assert forall|k: int| 0 <= k < out.len() && k != p implies #[trigger] out[k] == slots[k] by {}
    assert(distinct_paths(out)) by {
        assert forall|i: int, j: int|
            0 <= i < out.len() && 0 <= j < out.len() && i != j implies (#[trigger] out[i]).path
            != (#[trigger] out[j]).path by {
            if i != p {
                assert(out[i] == slots[i]);
            }
            if j != p {
                assert(out[j] == slots[j]);
            }
        }
    }
    lemma_slot_unique(out, p);
    assert forall|other: Seq<char>| (#[trigger] has_path(out, other)) == (other == path
        || has_path(slots, other)) by {
        if has_path(out, other) && other != path {
            let k = slot_of(out, other);
            assert(0 <= k < out.len() && out[k].path == other);
            assert(out[k] == slots[k]);
        }
        if has_path(slots, other) && other != path {
            let s = slot_of(slots, other);
            assert(0 <= s < slots.len() && slots[s].path == other);
            assert(out[s] == slots[s]);
        }
    }
    assert forall|other: Seq<char>| other != path implies #[trigger] cached(out, other) == cached(
        slots,
        other,
    ) by {
        if has_path(slots, other) {
            let s = slot_of(slots, other);
            assert(0 <= s < slots.len() && slots[s].path == other);
            assert(out[s] == slots[s]);
            lemma_slot_unique(out, s);
        }
    }
}

/// Finds the slot for `path`.
pub(crate) fn find_slot(slots: &Vec<SessionSlot>, path: &String) -> (out: Option<usize>)
    requires
        distinct_paths(slot_views(slots@)),
    ensures
        match out {
            Some(i) => has_path(slot_views(slots@), path@) && slot_of(slot_views(slots@), path@)
                == i && i < slots@.len(),
            None => !has_path(slot_views(slots@), path@),
        },
{
    let ghost views = slot_views(slots@);
    let mut i: usize = 0;
    while i < slots.len()
        invariant
            i <= slots@.len(),
            views == slot_views(slots@),
            distinct_paths(views),
            forall|k: int| 0 <= k < i ==> (#[trigger] views[k]).path != path@,
        decreases slots@.len() - i,
    {
        if slots[i].path == *path {
            proof {
                assert(views[i as int].path == path@);
                lemma_slot_unique(views, i as int);
            }
            return Some(i);
        }
        i += 1;
    }
    None
}

/// Takes the entry for `path` out of the cache, if there is one.
pub(crate) fn remove_slot(slots: &mut Vec<SessionSlot>, path: &String)
    requires
        distinct_paths(slot_views(old(slots)@)),
    ensures
        slot_views(final(slots)@) == without_path(slot_views(old(slots)@), path@),
        distinct_paths(slot_views(final(slots)@)),
{
    proof {
        lemma_without_path(slot_views(slots@), path@);
    }
    match find_slot(slots, path) {
        Some(i) => {
            let ghost before = slots@;
            slots.remove(i);
            proof {
                assert(slot_views(slots@) =~= slot_views(before).remove(i as int));
            }
        },
        None => {},
    }
}

/// Makes `session` the entry for `path`.
pub(crate) fn upsert_slot(slots: &mut Vec<SessionSlot>, path: &String, session: CachedCodexSession)
    requires
        distinct_paths(slot_views(old(slots)@)),
    ensures
        slot_views(final(slots)@) == with_session(slot_views(old(slots)@), path@, session@),
        distinct_paths(slot_views(final(slots)@)),
{
    proof {
        lemma_with_session(slot_views(slots@), path@, session@);
    }
    let ghost before = slots@;
    match find_slot(slots, path) {
        Some(i) => {
            let slot = SessionSlot { path: path.clone(), session };
            slots.push(slot);
            slots.swap_remove(i);
            proof {
                assert(slot_views(slots@) =~= slot_views(before).update(
                    i as int,
                    SlotView { path: path@, session: session@ },
                ));
            }
        },
        None => {
            slots.push(SessionSlot { path: path.clone(), session });
            proof {
                assert(slot_views(slots@) =~= slot_views(before).push(
                    SlotView { path: path@, session: session@ },
                ));
            }
        },
    }
}

} // verus!
