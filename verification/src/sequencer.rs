//! Decisions of the audio-thread scheduler that involve no timing
//! arithmetic: which held notes a transport jump releases.

use vstd::prelude::*;
use crate::routes::str_eq;

verus! {

/// At most this many retriggered notes are remembered per jump.
pub const MAX_RETRIGGERS: usize = 32;

/// The held notes that the new iteration's beat-0 note-ons retrigger, in
/// the order those note-ons come, remembering at most
/// [`MAX_RETRIGGERS`].
pub open spec fn retrigger_targets(held: Seq<(u8, u8)>, starts: Seq<(u8, u8)>) -> Seq<(u8, u8)>
    decreases starts.len(),
{
    if starts.len() == 0 {
        Seq::empty()
    } else {
        let acc = retrigger_targets(held, starts.drop_last());
        if held.contains(starts.last()) && acc.len() < MAX_RETRIGGERS {
            acc.push(starts.last())
        } else {
            acc
        }
    }
}

/// `held` without the notes in `skip`, order kept.
pub open spec fn without_notes(held: Seq<(u8, u8)>, skip: Seq<(u8, u8)>) -> Seq<(u8, u8)>
    decreases held.len(),
{
    if held.len() == 0 {
        Seq::empty()
    } else {
        let rest = without_notes(held.drop_last(), skip);
        if skip.contains(held.last()) { rest } else { rest.push(held.last()) }
    }
}

/// The notes a fugue releases with a note-off when the transport jumps:
/// every held note, except, when the new iteration starts at beat zero,
/// those its beat-zero note-ons retrigger at once.
pub open spec fn notes_released(held: Seq<(u8, u8)>, beat_zero_starts: Seq<(u8, u8)>, starts_at_beat_zero: bool) -> Seq<(u8, u8)> {
    if starts_at_beat_zero {
        without_notes(held, retrigger_targets(held, beat_zero_starts))
    } else {
        held
    }
}

fn contains_note(s: &Vec<(u8, u8)>, p: (u8, u8)) -> (r: bool)
    ensures
        r == s@.contains(p),
{
    let mut i: usize = 0;
    while i < s.len()
        invariant
            i <= s@.len(),
            forall|j: int| 0 <= j < i ==> s@[j] != p,
        decreases s@.len() - i,
    {
        if s[i].0 == p.0 && s[i].1 == p.1 {
            assert(s@.contains(p)) by {
                assert(s@[i as int] == p);
            }
            return true;
        }
        i = i + 1;
    }
    false
}

proof fn lemma_retrigger_targets_len(held: Seq<(u8, u8)>, starts: Seq<(u8, u8)>)
    ensures
        retrigger_targets(held, starts).len() <= MAX_RETRIGGERS,
    decreases starts.len(),
{
    if starts.len() > 0 {
        lemma_retrigger_targets_len(held, starts.drop_last());
    }
}

/// The notes to release at a transport jump, as [`notes_released`] says:
/// `held` are the fugue's sounding notes and `beat_zero_starts` the
/// (channel, note) of its note-ons at beat zero, in order.
pub fn release_on_jump(held: &Vec<(u8, u8)>, beat_zero_starts: &Vec<(u8, u8)>, starts_at_beat_zero: bool) -> (r: Vec<(u8, u8)>)
    ensures
        r@ == notes_released(held@, beat_zero_starts@, starts_at_beat_zero),
{
    let mut targets: Vec<(u8, u8)> = Vec::new();
    if starts_at_beat_zero {
        let mut i: usize = 0;
        assert(beat_zero_starts@.take(0) =~= Seq::<(u8, u8)>::empty());
        while i < beat_zero_starts.len()
            invariant
                i <= beat_zero_starts@.len(),
                targets@ == retrigger_targets(held@, beat_zero_starts@.take(i as int)),
            decreases beat_zero_starts@.len() - i,
        {
            let ghost t1 = beat_zero_starts@.take(i + 1);
            proof {
                assert(t1.drop_last() =~= beat_zero_starts@.take(i as int));
                assert(t1.last() == beat_zero_starts@[i as int]);
                lemma_retrigger_targets_len(held@, beat_zero_starts@.take(i as int));
            }
            let p = beat_zero_starts[i];
            if contains_note(held, p) && targets.len() < MAX_RETRIGGERS {
                targets.push(p);
            }
            i = i + 1;
            proof {
                assert(beat_zero_starts@.take(i as int) == t1);
            }
        }
        assert(beat_zero_starts@.take(i as int) =~= beat_zero_starts@);
    }
    let ghost skip = targets@;
    let mut out: Vec<(u8, u8)> = Vec::new();
    let mut k: usize = 0;
    assert(held@.take(0) =~= Seq::<(u8, u8)>::empty());
    while k < held.len()
        invariant
            k <= held@.len(),
            skip == targets@,
            out@ == without_notes(held@.take(k as int), skip),
        decreases held@.len() - k,
    {
        let ghost t1 = held@.take(k + 1);
        proof {
            assert(t1.drop_last() =~= held@.take(k as int));
            assert(t1.last() == held@[k as int]);
        }
        let p = held[k];
        if !contains_note(&targets, p) {
            out.push(p);
        }
        k = k + 1;
        proof {
            assert(held@.take(k as int) == t1);
        }
    }
    assert(held@.take(k as int) =~= held@);
    proof {
        if !starts_at_beat_zero {
            lemma_without_nothing(held@);
            assert(skip == Seq::<(u8, u8)>::empty());
        }
    }
    out
}

proof fn lemma_without_nothing(held: Seq<(u8, u8)>)
    ensures
        without_notes(held, Seq::empty()) == held,
    decreases held.len(),
{
    if held.len() > 0 {
        lemma_without_nothing(held.drop_last());
        assert(held.drop_last().push(held.last()) =~= held);
    }
}

proof fn lemma_without_notes_contains(held: Seq<(u8, u8)>, skip: Seq<(u8, u8)>, p: (u8, u8))
    ensures
        without_notes(held, skip).contains(p) <==> held.contains(p) && !skip.contains(p),
    decreases held.len(),
{
    if held.len() > 0 {
        let d = held.drop_last();
        lemma_without_notes_contains(d, skip, p);
        assert(held =~= d.push(held.last()));
        let rest = without_notes(d, skip);
        if held.contains(p) && !skip.contains(p) {
            if p != held.last() {
                let i = choose|i: int| 0 <= i < held.len() && held[i] == p;
                assert(d[i] == p);
                assert(rest.contains(p));
                if !skip.contains(held.last()) {
                    assert(rest.push(held.last()).contains(p)) by {
                        let j = choose|j: int| 0 <= j < rest.len() && rest[j] == p;
                        assert(rest.push(held.last())[j] == p);
                    }
                }
            } else {
                assert(rest.push(held.last())[rest.len() as int] == p);
            }
        }
        if without_notes(held, skip).contains(p) {
            if !skip.contains(held.last()) && p == held.last() {
                assert(held[held.len() - 1] == p);
            } else {
                if !skip.contains(held.last()) {
                    let j = choose|j: int| 0 <= j < rest.len() + 1 && rest.push(held.last())[j] == p;
                    if j < rest.len() {
                        assert(rest[j] == p);
                    }
                }
                assert(rest.contains(p));
                let i = choose|i: int| 0 <= i < d.len() && d[i] == p;
                assert(held[i] == p);
            }
        }
    }
}

proof fn lemma_targets_from_starts(held: Seq<(u8, u8)>, starts: Seq<(u8, u8)>, p: (u8, u8))
    ensures
        retrigger_targets(held, starts).contains(p) ==> starts.contains(p),
    decreases starts.len(),
{
    if starts.len() > 0 {
        let d = starts.drop_last();
        lemma_targets_from_starts(held, d, p);
        let acc = retrigger_targets(held, d);
        if retrigger_targets(held, starts).contains(p) {
            if acc.contains(p) {
                let i = choose|i: int| 0 <= i < d.len() && d[i] == p;
                assert(starts[i] == p);
            } else {
                let j = choose|j: int| 0 <= j < acc.len() + 1 && acc.push(starts.last())[j] == p;
                if j < acc.len() {
                    assert(acc[j] == p);
                }
                assert(starts[starts.len() - 1] == p);
            }
        }
    }
}

/// A transport jump leaves no note stuck: every released note was held,
/// and every held note is released unless one of the new iteration's
/// beat-zero note-ons plays it again at once.
pub proof fn lemma_jump_releases_held_notes(held: Seq<(u8, u8)>, beat_zero_starts: Seq<(u8, u8)>, starts_at_beat_zero: bool, p: (u8, u8))
    ensures
        notes_released(held, beat_zero_starts, starts_at_beat_zero).contains(p) ==> held.contains(p),
        held.contains(p) ==> notes_released(held, beat_zero_starts, starts_at_beat_zero).contains(p)
            || (starts_at_beat_zero && beat_zero_starts.contains(p)),
        !starts_at_beat_zero ==> notes_released(held, beat_zero_starts, starts_at_beat_zero) == held,
{
    let targets = retrigger_targets(held, beat_zero_starts);
    lemma_without_notes_contains(held, targets, p);
    lemma_targets_from_starts(held, beat_zero_starts, p);
}

/// What the scheduler knows of one of its fugues when a cancellation
/// comes in.
#[derive(Debug)]
pub struct FugueStatus {
    pub id: u64,
    pub tag: Option<String>,
    /// Cancelled, or done with all its loops.
    pub finished: bool,
    /// Queued, waiting for its quantized start.
    pub waiting_for_start: bool,
}

/// A cancellation the scheduler carries out.
#[derive(Debug)]
pub enum CancelRequest {
    /// A cancel command for one fugue.
    ById(u64),
    /// A cancel-by-tag command.
    ByTag(String),
    /// A starting fugue's cancel mode naming a tag: only fugues already
    /// playing are cancelled.
    ByTagWhenStarting(String),
    /// A clear-all command: every fugue goes.
    All,
    /// A starting fugue's cancel-all mode: fugues already playing go,
    /// fugues still waiting to start stay.
    AllStarted,
}

/// What happens to one fugue.
#[derive(Clone, Copy, PartialEq, Eq, Structural, Debug)]
pub enum CancelAction {
    Keep,
    /// Release its notes and mark it cancelled.
    Cancel,
    /// Release its notes and drop it.
    Remove,
}

/// Whether a fugue carries exactly the tag `tag`.
pub open spec fn tagged(f: FugueStatus, tag: Seq<char>) -> bool {
    f.tag matches Some(t) && t@ == tag
}

/// What `req` does to fugue `f`.
pub open spec fn cancel_action(f: FugueStatus, req: CancelRequest) -> CancelAction {
    match req {
        CancelRequest::ById(id) => if f.id == id && !f.finished { CancelAction::Cancel } else { CancelAction::Keep },
        CancelRequest::ByTag(tag) => if tagged(f, tag@) && !f.finished { CancelAction::Cancel } else { CancelAction::Keep },
        CancelRequest::ByTagWhenStarting(tag) => {
            if tagged(f, tag@) && !f.finished && !f.waiting_for_start { CancelAction::Cancel } else { CancelAction::Keep }
        },
        CancelRequest::All => CancelAction::Remove,
        CancelRequest::AllStarted => if f.waiting_for_start { CancelAction::Keep } else { CancelAction::Remove },
    }
}

/// What `req` does to each of the scheduler's fugues, in order.
pub fn plan_cancel(fugues: &Vec<FugueStatus>, req: &CancelRequest) -> (r: Vec<CancelAction>)
    ensures
        r@.len() == fugues@.len(),
        forall|i: int| 0 <= i < r@.len() ==> r@[i] == cancel_action(#[trigger] fugues@[i], *req),
{
    let mut out: Vec<CancelAction> = Vec::new();
    let mut i: usize = 0;
    while i < fugues.len()
        invariant
            i <= fugues@.len(),
            out@.len() == i,
            forall|j: int| 0 <= j < i ==> out@[j] == cancel_action(#[trigger] fugues@[j], *req),
        decreases fugues@.len() - i,
    {
        let f = &fugues[i];
        let a = match req {
            CancelRequest::ById(id) => if f.id == *id && !f.finished { CancelAction::Cancel } else { CancelAction::Keep },
            CancelRequest::ByTag(tag) => {
                let hit = match &f.tag {
                    Some(t) => str_eq(t.as_str(), tag.as_str()),
                    None => false,
                };
                if hit && !f.finished { CancelAction::Cancel } else { CancelAction::Keep }
            },
            CancelRequest::ByTagWhenStarting(tag) => {
                let hit = match &f.tag {
                    Some(t) => str_eq(t.as_str(), tag.as_str()),
                    None => false,
                };
                if hit && !f.finished && !f.waiting_for_start { CancelAction::Cancel } else { CancelAction::Keep }
            },
            CancelRequest::All => CancelAction::Remove,
            CancelRequest::AllStarted => if f.waiting_for_start { CancelAction::Keep } else { CancelAction::Remove },
        };
        out.push(a);
        i = i + 1;
    }
    out
}

} // verus!
