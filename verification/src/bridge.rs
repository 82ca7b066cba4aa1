//! Registry of plugin instances and the command / snapshot channels to
//! their audio threads.
//!
//! Each registered instance owns the producer end of an `rtrb` ring buffer
//! carrying [`FugueCommand`]s to its audio thread, and three snapshot cells
//! the audio thread republishes every buffer: fugue infos, the transport
//! state and the full fugue definitions. Instances are looked up by name
//! first, then by id; the name `default` picks the first registered one.
//!
//! The registry is generic over the payloads it carries (`D` for a fugue
//! definition, `I` for a fugue info, `T` for the transport state); it only
//! ever reads the id and tag of a fugue, which [`FugueRecord`] keeps beside
//! the payload.

use vstd::prelude::*;
use rtrb::Consumer;
use crate::channels::{CommandSender, SnapshotCell};
use crate::text::str_chars;

verus! {

/// Capacity of each instance's command ring buffer.
pub const RING_BUFFER_SIZE: usize = 64;

/// A fugue (definition or info) as the registry sees it: its id and tag,
/// beside a payload the registry never reads.
#[derive(Clone)]
pub struct FugueRecord<P> {
    pub id: u64,
    pub tag: Option<String>,
    pub payload: P,
}

/// Commands sent through the ring buffer to the audio thread.
pub enum FugueCommand<D> {
    /// Queue a new fugue for playback.
    Queue(FugueRecord<D>),
    /// Cancel a specific fugue by id.
    Cancel { id: u64 },
    /// Cancel all fugues with a specific tag.
    CancelByTag { tag: String },
    /// Clear all active and pending fugues.
    ClearAll,
}

impl<D> FugueCommand<D> {
    /// A queue command.
    pub fn queue(definition: FugueRecord<D>) -> (r: Self)
        ensures
            r == (FugueCommand::Queue(definition)),
    {
        FugueCommand::Queue(definition)
    }

    /// A cancel command.
    pub fn cancel(id: u64) -> (r: Self)
        ensures
            r == (FugueCommand::<D>::Cancel { id }),
    {
        FugueCommand::Cancel { id }
    }

    /// A cancel-by-tag command.
    pub fn cancel_by_tag(tag: String) -> (r: Self)
        ensures
            r == (FugueCommand::<D>::CancelByTag { tag }),
    {
        FugueCommand::CancelByTag { tag }
    }

    /// A clear-all command.
    pub fn clear_all() -> (r: Self)
        ensures
            r == (FugueCommand::<D>::ClearAll),
    {
        FugueCommand::ClearAll
    }
}

/// `records` without the entries whose id is `id`, order kept.
pub open spec fn records_without_id<P>(records: Seq<FugueRecord<P>>, id: u64) -> Seq<FugueRecord<P>>
    decreases records.len(),
{
    if records.len() == 0 {
        records
    } else {
        let rest = records_without_id(records.drop_last(), id);
        if records.last().id != id {
            rest.push(records.last())
        } else {
            rest
        }
    }
}

/// Whether a record's tag is exactly `tag`.
pub open spec fn has_tag<P>(r: FugueRecord<P>, tag: Seq<char>) -> bool {
    r.tag matches Some(t) && t@ == tag
}

/// `records` without the entries tagged `tag`, order kept.
pub open spec fn records_without_tag<P>(records: Seq<FugueRecord<P>>, tag: Seq<char>) -> Seq<FugueRecord<P>>
    decreases records.len(),
{
    if records.len() == 0 {
        records
    } else {
        let rest = records_without_tag(records.drop_last(), tag);
        if !has_tag(records.last(), tag) {
            rest.push(records.last())
        } else {
            rest
        }
    }
}

/// Removes every record with id `id`, keeping the others in order.
pub fn retain_not_id<P>(records: Vec<FugueRecord<P>>, id: u64) -> (r: Vec<FugueRecord<P>>)
    ensures
        r@ == records_without_id(records@, id),
{
    let ghost all = records@;
    let mut out: Vec<FugueRecord<P>> = Vec::new();
    for rec in it: records.into_iter()
        invariant
            it.seq() == all,
            out@ == records_without_id(all.take(it.index() as int), id),
    {
        proof {
            assert(all.take(it.index() + 1).drop_last() =~= all.take(it.index() as int));
        }
        if rec.id != id {
            out.push(rec);
        }
    }
    assert(all.take(all.len() as int) =~= all);
    out
}

/// Removes every record tagged `tag`, keeping the others in order.
pub fn retain_not_tag<P>(records: Vec<FugueRecord<P>>, tag: &str) -> (r: Vec<FugueRecord<P>>)
    ensures
        r@ == records_without_tag(records@, tag@),
{
    let ghost all = records@;
    let tag_s = tag.to_owned();
    let mut out: Vec<FugueRecord<P>> = Vec::new();
    for rec in it: records.into_iter()
        invariant
            it.seq() == all,
            tag_s@ == tag@,
            out@ == records_without_tag(all.take(it.index() as int), tag@),
    {
        proof {
            assert(all.take(it.index() + 1).drop_last() =~= all.take(it.index() as int));
        }
        let keep = match &rec.tag {
            Some(t) => !(*t == tag_s),
            None => true,
        };
        if keep {
            out.push(rec);
        }
    }
    assert(all.take(all.len() as int) =~= all);
    out
}

/// The first record with id `id`, if any.
pub open spec fn first_record_with_id<P>(records: Seq<FugueRecord<P>>, id: u64) -> Option<FugueRecord<P>>
    decreases records.len(),
{
    if records.len() == 0 {
        None
    } else if records[0].id == id {
        Some(records[0])
    } else {
        first_record_with_id(records.drop_first(), id)
    }
}

/// The first record with id `id`, if any (consumes the list).
pub fn find_record<P>(records: Vec<FugueRecord<P>>, id: u64) -> (r: Option<FugueRecord<P>>)
    ensures
        r == first_record_with_id(records@, id),
{
    let ghost all = records@;
    assert(all.skip(0) =~= all);
    for rec in it: records.into_iter()
        invariant
            it.seq() == all,
            first_record_with_id(all, id) == first_record_with_id(all.skip(it.index() as int), id),
    {
        proof {
            assert(all.skip(it.index() as int).drop_first() =~= all.skip(it.index() + 1));
        }
        if rec.id == id {
            return Some(rec);
        }
    }
    assert(all.skip(all.len() as int).len() == 0);
    None
}

/// Whether some record has id `id`.
pub fn contains_id<P>(records: &Vec<FugueRecord<P>>, id: u64) -> (r: bool)
    ensures
        r == exists|i: int| 0 <= i < records@.len() && #[trigger] records@[i].id == id,
{
    let mut i: usize = 0;
    while i < records.len()
        invariant
            i <= records@.len(),
            forall|j: int| 0 <= j < i ==> records@[j].id != id,
        decreases records@.len() - i,
    {
        if records[i].id == id {
            return true;
        }
        i = i + 1;
    }
    false
}

/// Whether some record is tagged `tag`.
pub fn contains_tag<P>(records: &Vec<FugueRecord<P>>, tag: &str) -> (r: bool)
    ensures
        r == exists|i: int| 0 <= i < records@.len() && has_tag(#[trigger] records@[i], tag@),
{
    let tag_s = tag.to_owned();
    let mut i: usize = 0;
    while i < records.len()
        invariant
            i <= records@.len(),
            tag_s@ == tag@,
            forall|j: int| 0 <= j < i ==> !has_tag(#[trigger] records@[j], tag@),
        decreases records@.len() - i,
    {
        let hit = match &records[i].tag {
            Some(t) => *t == tag_s,
            None => false,
        };
        if hit {
            return true;
        }
        i = i + 1;
    }
    false
}

/// What a caller waits for after sending a command: the audio thread's
/// next info snapshot showing its effect.
#[derive(Debug)]
pub enum WaitGoal {
    /// A fugue with this id is listed.
    FugueVisible(u64),
    /// No fugue with this id is listed.
    FugueGone(u64),
    /// No fugue with this tag is listed.
    TagGone(String),
    /// No fugue is listed.
    NoFugues,
}

/// What the waiting caller does next.
#[derive(Clone, Copy, PartialEq, Eq, Structural, Debug)]
pub enum WaitAction {
    /// Stop waiting and report whether the goal was reached.
    Done(bool),
    /// Sleep briefly, then read the snapshot again.
    Poll,
}

/// Whether an info snapshot shows `goal` reached.
pub open spec fn goal_met<I>(goal: WaitGoal, infos: Seq<FugueRecord<I>>) -> bool {
    match goal {
        WaitGoal::FugueVisible(id) => exists|i: int| 0 <= i < infos.len() && #[trigger] infos[i].id == id,
        WaitGoal::FugueGone(id) => !exists|i: int| 0 <= i < infos.len() && #[trigger] infos[i].id == id,
        WaitGoal::TagGone(tag) => !exists|i: int| 0 <= i < infos.len() && has_tag(#[trigger] infos[i], tag@),
        WaitGoal::NoFugues => infos.len() == 0,
    }
}

/// One round of waiting for `goal`: finish as soon as the snapshot just
/// read (if the instance could be read) shows the goal; otherwise give up
/// once the deadline has passed, and poll again before it.
pub fn wait_step<I>(goal: &WaitGoal, infos: Option<&Vec<FugueRecord<I>>>, before_deadline: bool) -> (r: WaitAction)
    ensures
        r == (if infos matches Some(v) && goal_met(*goal, v@) {
            WaitAction::Done(true)
        } else if !before_deadline {
            WaitAction::Done(false)
        } else {
            WaitAction::Poll
        }),
{
    let met = match infos {
        None => false,
        Some(v) => match goal {
            WaitGoal::FugueVisible(id) => contains_id(v, *id),
            WaitGoal::FugueGone(id) => !contains_id(v, *id),
            WaitGoal::TagGone(tag) => !contains_tag(v, tag.as_str()),
            WaitGoal::NoFugues => v.len() == 0,
        },
    };
    if met {
        WaitAction::Done(true)
    } else if !before_deadline {
        WaitAction::Done(false)
    } else {
        WaitAction::Poll
    }
}

/// One registered plugin instance.
#[verifier::reject_recursive_types(D)]
#[verifier::reject_recursive_types(I)]
#[verifier::reject_recursive_types(T)]
pub struct FugueInstanceEntry<D, I, T> {
    id: String,
    name: String,
    sender: CommandSender<FugueCommand<D>>,
    info_cache: SnapshotCell<Vec<FugueRecord<I>>>,
    transport_cache: SnapshotCell<T>,
    definitions_cache: SnapshotCell<Vec<FugueRecord<D>>>,
}

impl<D, I, T> FugueInstanceEntry<D, I, T> {
    /// The instance's id.
    pub closed spec fn instance_id(&self) -> Seq<char> {
        self.id@
    }

    /// The instance's display name.
    pub closed spec fn instance_name(&self) -> Seq<char> {
        self.name@
    }

    /// Every command offered to this instance's buffer, in order, whether
    /// or not the buffer had room for it.
    pub closed spec fn offered(&self) -> Seq<FugueCommand<D>> {
        self.sender.offered()
    }

    /// The commands this instance's audio thread has been sent, in order.
    pub closed spec fn sent(&self) -> Seq<FugueCommand<D>> {
        self.sender.sent()
    }

    /// This instance's fugue info cell.
    pub closed spec fn info_cell(&self) -> SnapshotCell<Vec<FugueRecord<I>>> {
        self.info_cache
    }

    /// This instance's transport cell.
    pub closed spec fn transport_cell(&self) -> SnapshotCell<T> {
        self.transport_cache
    }

    /// This instance's fugue definition cell.
    pub closed spec fn definitions_cell(&self) -> SnapshotCell<Vec<FugueRecord<D>>> {
        self.definitions_cache
    }
}

/// Two entries are the same instance with the same snapshot cells; only
/// their command logs may differ.
pub open spec fn same_instance<D, I, T>(a: FugueInstanceEntry<D, I, T>, b: FugueInstanceEntry<D, I, T>) -> bool {
    &&& a.instance_id() == b.instance_id()
    &&& a.instance_name() == b.instance_name()
    &&& a.info_cell() == b.info_cell()
    &&& a.transport_cell() == b.transport_cell()
    &&& a.definitions_cell() == b.definitions_cell()
}

/// `after` is the cell `before` once the main thread has read it and
/// written back `f` of what it read.
pub open spec fn rewritten<P>(
    before: SnapshotCell<Vec<FugueRecord<P>>>,
    after: SnapshotCell<Vec<FugueRecord<P>>>,
    f: spec_fn(Seq<FugueRecord<P>>) -> Seq<FugueRecord<P>>,
) -> bool {
    &&& after.ident() == before.ident()
    &&& after.seen() matches Some(s)
    &&& after.written() matches Some(w)
    &&& w@ == f(s@)
}

/// `after` is the cell `before` once the main thread has emptied it.
pub open spec fn emptied<P>(before: SnapshotCell<Vec<FugueRecord<P>>>, after: SnapshotCell<Vec<FugueRecord<P>>>) -> bool {
    &&& after.ident() == before.ident()
    &&& after.written() matches Some(w)
    &&& w@.len() == 0
}

/// Every entry but the `k`-th is the same in `before` and `after`.
pub open spec fn others_unchanged<E>(before: Seq<E>, after: Seq<E>, k: int) -> bool {
    &&& after.len() == before.len()
    &&& forall|j: int| 0 <= j < before.len() && j != k ==> #[trigger] after[j] == before[j]
}

/// The `k`-th instance's name, id and transport cell are kept, and every
/// other instance is unchanged.
pub open spec fn only_touched<D, I, T>(before: Seq<FugueInstanceEntry<D, I, T>>, after: Seq<FugueInstanceEntry<D, I, T>>, k: int) -> bool {
    &&& others_unchanged(before, after, k)
    &&& after[k].instance_id() == before[k].instance_id()
    &&& after[k].instance_name() == before[k].instance_name()
    &&& after[k].transport_cell() == before[k].transport_cell()
}

/// Nothing reached the `k`-th instance's audio thread and its cells are as
/// they were.
pub open spec fn untouched<D, I, T>(before: Seq<FugueInstanceEntry<D, I, T>>, after: Seq<FugueInstanceEntry<D, I, T>>, k: int) -> bool {
    &&& after[k].sent() == before[k].sent()
    &&& same_instance(after[k], before[k])
}

/// The effect of cancelling fugue `id` on the `k`-th instance: when `done`,
/// the cancel command was sent and both cells were rewritten without the
/// fugue; otherwise the command was offered and refused, and nothing else
/// changed.
pub open spec fn cancelled<D, I, T>(
    before: Seq<FugueInstanceEntry<D, I, T>>,
    after: Seq<FugueInstanceEntry<D, I, T>>,
    k: int,
    id: u64,
    done: bool,
) -> bool {
    &&& only_touched(before, after, k)
    &&& after[k].offered() == before[k].offered().push(FugueCommand::Cancel { id })
    &&& done ==> {
        &&& after[k].sent() == before[k].sent().push(FugueCommand::Cancel { id })
        &&& rewritten(before[k].info_cell(), after[k].info_cell(), |s: Seq<FugueRecord<I>>| records_without_id(s, id))
        &&& rewritten(before[k].definitions_cell(), after[k].definitions_cell(), |s: Seq<FugueRecord<D>>| records_without_id(s, id))
    }
    &&& !done ==> untouched(before, after, k)
}

/// The effect of cancelling the fugues tagged `tag` on the `k`-th instance:
/// when `done`, a cancel-by-tag command for `tag` was sent and both cells
/// were rewritten without the tag; otherwise the command was offered and
/// refused, and nothing else changed.
pub open spec fn cancelled_by_tag<D, I, T>(
    before: Seq<FugueInstanceEntry<D, I, T>>,
    after: Seq<FugueInstanceEntry<D, I, T>>,
    k: int,
    tag: Seq<char>,
    done: bool,
) -> bool {
    &&& only_touched(before, after, k)
    &&& after[k].offered().drop_last() == before[k].offered()
    &&& after[k].offered().len() == before[k].offered().len() + 1
    &&& after[k].offered().last() matches FugueCommand::CancelByTag { tag: t } && t@ == tag
    &&& done ==> after[k].sent().last() == after[k].offered().last()
    &&& done ==> {
        &&& after[k].sent().len() == before[k].sent().len() + 1
        &&& after[k].sent().drop_last() == before[k].sent()
        &&& after[k].sent().last() matches FugueCommand::CancelByTag { tag: t } && t@ == tag
        &&& rewritten(before[k].info_cell(), after[k].info_cell(), |s: Seq<FugueRecord<I>>| records_without_tag(s, tag))
        &&& rewritten(before[k].definitions_cell(), after[k].definitions_cell(), |s: Seq<FugueRecord<D>>| records_without_tag(s, tag))
    }
    &&& !done ==> untouched(before, after, k)
}

/// The effect of clearing the `k`-th instance: when `done`, the clear-all
/// command was sent and both cells were written empty; otherwise the
/// command was offered and refused, and nothing else changed.
pub open spec fn cleared<D, I, T>(
    before: Seq<FugueInstanceEntry<D, I, T>>,
    after: Seq<FugueInstanceEntry<D, I, T>>,
    k: int,
    done: bool,
) -> bool {
    &&& only_touched(before, after, k)
    &&& after[k].offered() == before[k].offered().push(FugueCommand::ClearAll)
    &&& done ==> {
        &&& after[k].sent() == before[k].sent().push(FugueCommand::ClearAll)
        &&& emptied(before[k].info_cell(), after[k].info_cell())
        &&& emptied(before[k].definitions_cell(), after[k].definitions_cell())
    }
    &&& !done ==> untouched(before, after, k)
}

/// `e` is the entry of a newly registered instance: nothing sent yet,
/// empty info and definition cells, and `transport` in its transport cell.
pub open spec fn fresh_entry<D, I, T>(e: FugueInstanceEntry<D, I, T>, id: Seq<char>, name: Seq<char>, transport: T) -> bool {
    &&& e.instance_id() == id
    &&& e.instance_name() == name
    &&& e.offered() == Seq::<FugueCommand<D>>::empty()
    &&& e.sent() == Seq::<FugueCommand<D>>::empty()
    &&& e.info_cell().written() matches Some(w) && w@.len() == 0
    &&& e.definitions_cell().written() matches Some(w) && w@.len() == 0
    &&& e.transport_cell().written() == Some(transport)
}

/// Handle the audio thread uses to publish its snapshots.
#[verifier::reject_recursive_types(D)]
#[verifier::reject_recursive_types(I)]
#[verifier::reject_recursive_types(T)]
pub struct FugueInfoHandle<D, I, T> {
    info_cache: SnapshotCell<Vec<FugueRecord<I>>>,
    transport_cache: SnapshotCell<T>,
    definitions_cache: SnapshotCell<Vec<FugueRecord<D>>>,
}

impl<D, I, T> FugueInfoHandle<D, I, T> {
    /// Which info cell this handle publishes to.
    pub closed spec fn info_ident(&self) -> int {
        self.info_cache.ident()
    }

    /// Which transport cell this handle publishes to.
    pub closed spec fn transport_ident(&self) -> int {
        self.transport_cache.ident()
    }

    /// Which definition cell this handle publishes to.
    pub closed spec fn definitions_ident(&self) -> int {
        self.definitions_cache.ident()
    }

    /// Publish the fugue info list.
    pub fn update(&self, infos: Vec<FugueRecord<I>>) {
        self.info_cache.publish(infos);
    }

    /// Publish the transport state.
    pub fn update_transport(&self, transport: T) {
        self.transport_cache.publish(transport);
    }

    /// Publish the fugue definitions.
    pub fn update_definitions(&self, definitions: Vec<FugueRecord<D>>) {
        self.definitions_cache.publish(definitions);
    }
}

/// The instance name that selects the first registered instance.
pub open spec fn default_name() -> Seq<char> {
    seq!['d', 'e', 'f', 'a', 'u', 'l', 't']
}

/// Index of the first entry at or after `from` whose name (`by_name`) or
/// id (`!by_name`) equals `key`.
pub open spec fn first_match(v: Seq<(Seq<char>, Seq<char>)>, key: Seq<char>, by_name: bool, from: int) -> Option<int>
    decreases v.len() - from,
{
    if from < 0 || from >= v.len() {
        None
    } else if (if by_name { v[from].1 } else { v[from].0 }) == key {
        Some(from)
    } else {
        first_match(v, key, by_name, from + 1)
    }
}

/// Which entry an instance reference selects: `default` is the first
/// entry; otherwise the first entry with that name, else the entry with
/// that id.
pub open spec fn resolve_instance(v: Seq<(Seq<char>, Seq<char>)>, key: Seq<char>) -> Option<int> {
    if key == default_name() {
        if v.len() > 0 { Some(0) } else { None }
    } else {
        match first_match(v, key, true, 0) {
            Some(i) => Some(i),
            None => first_match(v, key, false, 0),
        }
    }
}

/// The error a failed lookup of `key` reports.
pub open spec fn lookup_error(key: Seq<char>) -> &'static str {
    if key == default_name() { "No instances connected" } else { "Instance not found" }
}

proof fn lemma_first_match_bounds(v: Seq<(Seq<char>, Seq<char>)>, key: Seq<char>, by_name: bool, from: int)
    ensures
        first_match(v, key, by_name, from) matches Some(i) ==> from <= i < v.len()
            && (if by_name { v[i].1 } else { v[i].0 }) == key
            && forall|j: int| from <= j < i ==> (if by_name { v[j].1 } else { v[j].0 }) != key,
        first_match(v, key, by_name, from) is None && from >= 0 ==> forall|j: int| from <= j < v.len()
            ==> (if by_name { v[j].1 } else { v[j].0 }) != key,
    decreases v.len() - from,
{
    if from >= 0 && from < v.len() {
        lemma_first_match_bounds(v, key, by_name, from + 1);
    }
}

fn is_default_name(name: &Vec<char>) -> (r: bool)
    ensures
        r == (name@ == default_name()),
{
    let r = name.len() == 7 && name[0] == 'd' && name[1] == 'e' && name[2] == 'f' && name[3] == 'a'
        && name[4] == 'u' && name[5] == 'l' && name[6] == 't';
    proof {
        if r {
            assert(name@ =~= default_name());
        }
    }
    r
}

/// Registry of plugin instances (see the module documentation).
#[verifier::reject_recursive_types(D)]
#[verifier::reject_recursive_types(I)]
#[verifier::reject_recursive_types(T)]
pub struct FugueBridge<D, I, T> {
    entries: Vec<FugueInstanceEntry<D, I, T>>,
}

impl<D, I, T> FugueBridge<D, I, T> {
    /// The registered instances, in registration order.
    pub closed spec fn entries(&self) -> Seq<FugueInstanceEntry<D, I, T>> {
        self.entries@
    }

    /// `(id, name)` of every entry, in registration order.
    pub open spec fn view(&self) -> Seq<(Seq<char>, Seq<char>)> {
        self.entries().map_values(|e: FugueInstanceEntry<D, I, T>| (e.instance_id(), e.instance_name()))
    }

    /// Instance ids are unique.
    pub open spec fn wf(&self) -> bool {
        forall|i: int, j: int| 0 <= i < j < self@.len() ==> self@[i].0 != self@[j].0
    }

    /// An empty registry.
    pub fn new() -> (r: Self)
        ensures
            r@ == Seq::<(Seq<char>, Seq<char>)>::empty(),
            r.wf(),
    {
        let r = FugueBridge { entries: Vec::new() };
        assert(r@ =~= Seq::<(Seq<char>, Seq<char>)>::empty());
        r
    }

    /// Number of registered instances.
    pub fn len(&self) -> (r: usize)
        ensures
            r == self@.len(),
    {
        self.entries.len()
    }

    fn first_index(&self, key: &Vec<char>, by_name: bool) -> (r: Option<usize>)
        ensures
            r matches Some(i) ==> first_match(self@, key@, by_name, 0) == Some(i as int),
            r is None ==> first_match(self@, key@, by_name, 0) is None,
    {
        let key_s = crate::text::string_from_chars(key);
        let mut i: usize = 0;
        while i < self.entries.len()
            invariant
                i <= self@.len(),
                self@.len() == self.entries@.len(),
                key_s@ == key@,
                first_match(self@, key@, by_name, 0) == first_match(self@, key@, by_name, i as int),
            decreases self@.len() - i,
        {
            let field = if by_name { &self.entries[i].name } else { &self.entries[i].id };
            assert(self@[i as int] == (self.entries@[i as int].id@, self.entries@[i as int].name@));
            if *field == key_s {
                return Some(i);
            }
            i = i + 1;
        }
        None
    }

    /// Finds the entry an instance reference selects (see
    /// [`resolve_instance`]).
    pub fn find_entry(&self, name: &str) -> (r: Result<usize, &'static str>)
        ensures
            match resolve_instance(self@, name@) {
                Some(i) => r == Ok::<usize, &'static str>(i as usize),
                None => r == Err::<usize, &'static str>(lookup_error(name@)),
            },
            r matches Ok(i) ==> i < self@.len() && resolve_instance(self@, name@) == Some(i as int),
    {
        let key = str_chars(name);
        proof {
            lemma_first_match_bounds(self@, name@, true, 0);
            lemma_first_match_bounds(self@, name@, false, 0);
        }
        if is_default_name(&key) {
            if self.entries.len() > 0 {
                return Ok(0);
            }
            return Err("No instances connected");
        }
        match self.first_index(&key, true) {
            Some(i) => Ok(i),
            None => match self.first_index(&key, false) {
                Some(i) => Ok(i),
                None => Err("Instance not found"),
            },
        }
    }

    /// Registers an instance under `id` with display name `name`, replacing
    /// any entry that already has that id. Returns the audio thread's end of
    /// the command buffer and the handle it publishes snapshots through;
    /// `initial_transport` seeds the transport snapshot.
    pub fn register(&mut self, id: &str, name: &str, initial_transport: T) -> (r: (Consumer<FugueCommand<D>>, FugueInfoHandle<D, I, T>))
        requires
            old(self).wf(),
        ensures
            final(self).wf(),
            match first_match(old(self)@, id@, false, 0) {
                Some(i) => final(self)@ == old(self)@.update(i, (id@, name@)),
                None => final(self)@ == old(self)@.push((id@, name@)),
            },
            ({
                let k = match first_match(old(self)@, id@, false, 0) {
                    Some(i) => i,
                    None => old(self)@.len() as int,
                };
                let e = final(self).entries()[k];
                &&& final(self).entries() == (if k < old(self)@.len() {
                    old(self).entries().update(k, e)
                } else {
                    old(self).entries().push(e)
                })
                &&& fresh_entry(e, id@, name@, initial_transport)
                &&& r.1.info_ident() == e.info_cell().ident()
                &&& r.1.transport_ident() == e.transport_cell().ident()
                &&& r.1.definitions_ident() == e.definitions_cell().ident()
            }),
    {
        let (sender, consumer) = CommandSender::channel(RING_BUFFER_SIZE);
        let info_cache = SnapshotCell::new(Vec::new());
        let transport_cache = SnapshotCell::new(initial_transport);
        let definitions_cache = SnapshotCell::new(Vec::new());
        let handle = FugueInfoHandle {
            info_cache: info_cache.share(),
            transport_cache: transport_cache.share(),
            definitions_cache: definitions_cache.share(),
        };
        let entry = FugueInstanceEntry {
            id: id.to_owned(),
            name: name.to_owned(),
            sender,
            info_cache,
            transport_cache,
            definitions_cache,
        };
        let key = str_chars(id);
        let ghost old_view = self@;
        let ghost old_entries = self.entries@;
        proof {
            lemma_first_match_bounds(old_view, id@, false, 0);
        }
        match self.first_index(&key, false) {
            Some(i) => {
                self.entries.set(i, entry);
                proof {
                    assert(self@ =~= old_view.update(i as int, (id@, name@)));
                    assert(self.entries@ =~= old_entries.update(i as int, entry));
                }
            }
            None => {
                self.entries.push(entry);
                proof {
                    assert(self@ =~= old_view.push((id@, name@)));
                    assert(self.entries@ =~= old_entries.push(entry));
                }
            }
        }
        (consumer, handle)
    }

    /// Removes the instance with id `id`, if any; the others keep their
    /// order, command buffers and cells.
    pub fn unregister(&mut self, id: &str)
        requires
            old(self).wf(),
        ensures
            final(self).wf(),
            match first_match(old(self)@, id@, false, 0) {
                Some(i) => final(self)@ == old(self)@.remove(i) && final(self).entries() == old(self).entries().remove(i),
                None => final(self).entries() == old(self).entries(),
            },
    {
        let key = str_chars(id);
        let ghost old_view = self@;
        let ghost old_entries = self.entries@;
        proof {
            lemma_first_match_bounds(old_view, id@, false, 0);
        }
        if let Some(i) = self.first_index(&key, false) {
            self.entries.remove(i);
            proof {
                assert(self@ =~= old_view.remove(i as int));
            }
        }
    }

    /// Renames the instance with id `id`, if any; nothing else changes.
    pub fn update_name(&mut self, id: &str, new_name: &str)
        requires
            old(self).wf(),
        ensures
            final(self).wf(),
            final(self).entries().len() == old(self).entries().len(),
            match first_match(old(self)@, id@, false, 0) {
                Some(i) => {
                    &&& final(self)@ == old(self)@.update(i, (old(self)@[i].0, new_name@))
                    &&& forall|j: int| 0 <= j < old(self).entries().len() && j != i
                        ==> #[trigger] final(self).entries()[j] == old(self).entries()[j]
                    &&& final(self).entries()[i].instance_id() == old(self).entries()[i].instance_id()
                    &&& final(self).entries()[i].instance_name() == new_name@
                    &&& final(self).entries()[i].sent() == old(self).entries()[i].sent()
                    &&& final(self).entries()[i].offered() == old(self).entries()[i].offered()
                    &&& final(self).entries()[i].info_cell() == old(self).entries()[i].info_cell()
                    &&& final(self).entries()[i].transport_cell() == old(self).entries()[i].transport_cell()
                    &&& final(self).entries()[i].definitions_cell() == old(self).entries()[i].definitions_cell()
                },
                None => final(self).entries() == old(self).entries(),
            },
    {
        let key = str_chars(id);
        let ghost old_view = self@;
        let ghost old_entries = self.entries@;
        proof {
            lemma_first_match_bounds(old_view, id@, false, 0);
        }
        if let Some(i) = self.first_index(&key, false) {
            let mut entry = self.entries.remove(i);
            entry.name = new_name.to_owned();
            self.entries.insert(i, entry);
            proof {
                assert(self.entries@ =~= old_entries.update(i as int, entry));
                assert(self@ =~= old_view.update(i as int, (old_view[i as int].0, new_name@)));
            }
        }
    }

    /// Whether an instance reference selects some entry.
    pub fn has_instance(&self, instance: &str) -> (r: bool)
        ensures
            r == resolve_instance(self@, instance@) is Some,
    {
        self.find_entry(instance).is_ok()
    }

    /// Every registered instance as `(id, name)`, in registration order.
    pub fn list_all_instances(&self) -> (r: Vec<(String, String)>)
        ensures
            r@.len() == self@.len(),
            forall|i: int| 0 <= i < r@.len() ==> (#[trigger] r@[i].0@, r@[i].1@) == self@[i],
    {
        let mut out: Vec<(String, String)> = Vec::new();
        let mut i: usize = 0;
        while i < self.entries.len()
            invariant
                i <= self@.len(),
                self@.len() == self.entries@.len(),
                out@.len() == i,
                forall|j: int| 0 <= j < i ==> (#[trigger] out@[j].0@, out@[j].1@) == self@[j],
            decreases self@.len() - i,
        {
            let e = &self.entries[i];
            out.push((e.id.clone(), e.name.clone()));
            i = i + 1;
        }
        out
    }

    /// Queues a fugue on an instance and returns its id. Fails when the
    /// instance is unknown or its command buffer is full; only the selected
    /// instance's command log changes, by the queue command on success.
    pub fn queue(&mut self, instance: &str, definition: FugueRecord<D>) -> (r: Result<u64, &'static str>)
        ensures
            final(self)@ == old(self)@,
            final(self).entries().len() == old(self).entries().len(),
            match resolve_instance(old(self)@, instance@) {
                Some(k) => {
                    &&& others_unchanged(old(self).entries(), final(self).entries(), k)
                    &&& same_instance(final(self).entries()[k], old(self).entries()[k])
                    &&& final(self).entries()[k].offered() == old(self).entries()[k].offered().push(FugueCommand::Queue(definition))
                    &&& r == Ok::<u64, &'static str>(definition.id) ==> final(self).entries()[k].sent()
                        == old(self).entries()[k].sent().push(FugueCommand::Queue(definition))
                    &&& r is Err ==> r == Err::<u64, &'static str>("Queue full - audio thread not consuming fast enough")
                        && final(self).entries()[k].sent() == old(self).entries()[k].sent()
                    &&& r is Ok ==> r == Ok::<u64, &'static str>(definition.id)
                },
                None => r == Err::<u64, &'static str>(lookup_error(instance@))
                    && final(self).entries() == old(self).entries(),
            },
    {
        let idx = match self.find_entry(instance) {
            Ok(i) => i,
            Err(e) => return Err(e),
        };
        let id = definition.id;
        let ghost old_entries = self.entries@;
        let ghost old_view = self@;
        let mut entry = self.entries.remove(idx);
        let pushed = entry.sender.send(FugueCommand::Queue(definition));
        self.entries.insert(idx, entry);
        proof {
            assert(self.entries@ =~= old_entries.update(idx as int, entry));
            assert(self@ =~= old_view);
        }
        if !pushed {
            return Err("Queue full - audio thread not consuming fast enough");
        }
        Ok(id)
    }

    /// Cancels a fugue by id: queues the cancel for the audio thread, then
    /// drops the fugue from this instance's info and definition snapshots
    /// so readers see the removal at once. When the command buffer is full
    /// nothing changes.
    pub fn cancel(&mut self, instance: &str, id: u64) -> (r: Result<(), &'static str>)
        where I: Clone, D: Clone
        ensures
            final(self)@ == old(self)@,
            final(self).entries().len() == old(self).entries().len(),
            match resolve_instance(old(self)@, instance@) {
                Some(k) => (r is Err ==> r == Err::<(), &'static str>("Queue full"))
                    && cancelled(old(self).entries(), final(self).entries(), k, id, r is Ok),
                None => r == Err::<(), &'static str>(lookup_error(instance@))
                    && final(self).entries() == old(self).entries(),
            },
    {
        let idx = match self.find_entry(instance) {
            Ok(i) => i,
            Err(e) => return Err(e),
        };
        let ghost old_entries = self.entries@;
        let ghost old_view = self@;
        let mut entry = self.entries.remove(idx);
        let pushed = entry.sender.send(FugueCommand::Cancel { id });
        if pushed {
            let infos = entry.info_cache.load_seen();
            entry.info_cache.store(retain_not_id(infos, id));
            let defs = entry.definitions_cache.load_seen();
            entry.definitions_cache.store(retain_not_id(defs, id));
        }
        self.entries.insert(idx, entry);
        proof {
            assert(self.entries@ =~= old_entries.update(idx as int, entry));
            assert(self@ =~= old_view);
        }
        if pushed { Ok(()) } else { Err("Queue full") }
    }

    /// Cancels every fugue tagged `tag` (see [`Self::cancel`]).
    pub fn cancel_by_tag(&mut self, instance: &str, tag: &str) -> (r: Result<(), &'static str>)
        where I: Clone, D: Clone
        ensures
            final(self)@ == old(self)@,
            final(self).entries().len() == old(self).entries().len(),
            match resolve_instance(old(self)@, instance@) {
                Some(k) => (r is Err ==> r == Err::<(), &'static str>("Queue full"))
                    && cancelled_by_tag(old(self).entries(), final(self).entries(), k, tag@, r is Ok),
                None => r == Err::<(), &'static str>(lookup_error(instance@))
                    && final(self).entries() == old(self).entries(),
            },
    {
        let idx = match self.find_entry(instance) {
            Ok(i) => i,
            Err(e) => return Err(e),
        };
        let ghost old_entries = self.entries@;
        let ghost old_view = self@;
        let mut entry = self.entries.remove(idx);
        let command = FugueCommand::CancelByTag { tag: tag.to_owned() };
        let ghost sent0 = entry.sent();
        let ghost offered0 = entry.offered();
        let ghost cmd = command;
        let pushed = entry.sender.send(command);
        proof {
            assert(entry.offered().drop_last() =~= offered0);
            assert(entry.offered().last() == cmd);
            if pushed {
                assert(entry.sent().drop_last() =~= sent0);
                assert(entry.sent().last() == cmd);
            }
        }
        if pushed {
            let infos = entry.info_cache.load_seen();
            entry.info_cache.store(retain_not_tag(infos, tag));
            let defs = entry.definitions_cache.load_seen();
            entry.definitions_cache.store(retain_not_tag(defs, tag));
        }
        self.entries.insert(idx, entry);
        proof {
            assert(self.entries@ =~= old_entries.update(idx as int, entry));
            assert(self@ =~= old_view);
        }
        if pushed { Ok(()) } else { Err("Queue full") }
    }

    /// Clears every fugue on an instance (see [`Self::cancel`]).
    pub fn clear_all(&mut self, instance: &str) -> (r: Result<(), &'static str>)
        ensures
            final(self)@ == old(self)@,
            final(self).entries().len() == old(self).entries().len(),
            match resolve_instance(old(self)@, instance@) {
                Some(k) => (r is Err ==> r == Err::<(), &'static str>("Queue full"))
                    && cleared(old(self).entries(), final(self).entries(), k, r is Ok),
                None => r == Err::<(), &'static str>(lookup_error(instance@))
                    && final(self).entries() == old(self).entries(),
            },
    {
        let idx = match self.find_entry(instance) {
            Ok(i) => i,
            Err(e) => return Err(e),
        };
        let ghost old_entries = self.entries@;
        let ghost old_view = self@;
        let mut entry = self.entries.remove(idx);
        let pushed = entry.sender.send(FugueCommand::ClearAll);
        if pushed {
            entry.info_cache.store(Vec::new());
            entry.definitions_cache.store(Vec::new());
        }
        self.entries.insert(idx, entry);
        proof {
            assert(self.entries@ =~= old_entries.update(idx as int, entry));
            assert(self@ =~= old_view);
        }
        if pushed { Ok(()) } else { Err("Queue full") }
    }

    /// The latest fugue info snapshot of an instance.
    pub fn get_fugue_info(&self, instance: &str) -> (r: Result<Vec<FugueRecord<I>>, &'static str>)
        where I: Clone
        ensures
            r is Ok <==> resolve_instance(self@, instance@) is Some,
            r is Err ==> r == Err::<Vec<FugueRecord<I>>, &'static str>(lookup_error(instance@)),
    {
        let idx = self.find_entry(instance)?;
        Ok(self.entries[idx].info_cache.load())
    }

    /// The latest transport snapshot of an instance.
    pub fn get_transport(&self, instance: &str) -> (r: Result<T, &'static str>)
        where T: Clone
        ensures
            r is Ok <==> resolve_instance(self@, instance@) is Some,
            r is Err ==> r == Err::<T, &'static str>(lookup_error(instance@)),
    {
        let idx = self.find_entry(instance)?;
        Ok(self.entries[idx].transport_cache.load())
    }

    /// The latest fugue definition snapshot of an instance.
    pub fn get_definitions(&self, instance: &str) -> (r: Result<Vec<FugueRecord<D>>, &'static str>)
        where D: Clone
        ensures
            r is Ok <==> resolve_instance(self@, instance@) is Some,
            r is Err ==> r == Err::<Vec<FugueRecord<D>>, &'static str>(lookup_error(instance@)),
    {
        let idx = self.find_entry(instance)?;
        Ok(self.entries[idx].definitions_cache.load())
    }

    /// The definition with id `id` in the latest snapshot of an instance.
    pub fn get_definition(&self, instance: &str, id: u64) -> (r: Result<Option<FugueRecord<D>>, &'static str>)
        where D: Clone
        ensures
            r is Ok <==> resolve_instance(self@, instance@) is Some,
            r is Err ==> r == Err::<Option<FugueRecord<D>>, &'static str>(lookup_error(instance@)),
            r matches Ok(Some(d)) ==> d.id == id,
    {
        let defs = self.get_definitions(instance)?;
        let found = find_record(defs, id);
        proof {
            lemma_first_record_matches(defs@, id);
        }
        Ok(found)
    }
}


/// The registry view after registering `(id, name)` on `v`.
pub open spec fn registered(v: Seq<(Seq<char>, Seq<char>)>, id: Seq<char>, name: Seq<char>) -> Seq<(Seq<char>, Seq<char>)> {
    match first_match(v, id, false, 0) {
        Some(i) => v.update(i, (id, name)),
        None => v.push((id, name)),
    }
}

/// The registry view after unregistering `id` from `v`.
pub open spec fn unregistered(v: Seq<(Seq<char>, Seq<char>)>, id: Seq<char>) -> Seq<(Seq<char>, Seq<char>)> {
    match first_match(v, id, false, 0) {
        Some(i) => v.remove(i),
        None => v,
    }
}

/// A registered instance can be looked up by its id: after registering
/// `(id, name)`, the reference `id` selects some instance.
pub proof fn lemma_registered_instance_is_found(v: Seq<(Seq<char>, Seq<char>)>, id: Seq<char>, name: Seq<char>)
    ensures
        resolve_instance(registered(v, id, name), id) is Some,
{
    let w = registered(v, id, name);
    lemma_first_match_bounds(v, id, false, 0);
    lemma_first_match_bounds(w, id, true, 0);
    lemma_first_match_bounds(w, id, false, 0);
    match first_match(v, id, false, 0) {
        Some(i) => {
            assert(w[i].0 == id);
        },
        None => {
            assert(w[v.len() as int].0 == id);
        },
    }
}

/// A registered instance is selected by its id whenever no instance is
/// named like that id (and the id is not `default`).
pub proof fn lemma_registered_id_selects_entry(v: Seq<(Seq<char>, Seq<char>)>, id: Seq<char>, name: Seq<char>)
    requires
        id != default_name(),
        forall|j: int| 0 <= j < v.len() ==> v[j].1 != id,
        name != id,
    ensures
        resolve_instance(registered(v, id, name), id) matches Some(k) && registered(v, id, name)[k] == (id, name),
{
    let w = registered(v, id, name);
    lemma_first_match_bounds(v, id, false, 0);
    lemma_first_match_bounds(w, id, true, 0);
    lemma_first_match_bounds(w, id, false, 0);
    assert forall|j: int| 0 <= j < w.len() implies w[j].1 != id by {
        if j < v.len() {
            if first_match(v, id, false, 0) == Some(j) {
            } else {
                assert(w[j] == v[j]);
            }
        }
    }
    match first_match(v, id, false, 0) {
        Some(i) => {
            assert(w[i].0 == id);
            assert forall|j: int| 0 <= j < i implies w[j].0 != id by {
                assert(w[j] == v[j]);
            }
            lemma_first_match_is_first(w, id, false, i);
        },
        None => {
            let n = v.len() as int;
            assert(w[n].0 == id);
            assert forall|j: int| 0 <= j < n implies w[j].0 != id by {
                assert(w[j] == v[j]);
            }
            lemma_first_match_is_first(w, id, false, n);
        },
    }
}

proof fn lemma_first_match_is_first(v: Seq<(Seq<char>, Seq<char>)>, key: Seq<char>, by_name: bool, k: int)
    requires
        0 <= k < v.len(),
        (if by_name { v[k].1 } else { v[k].0 }) == key,
        forall|j: int| 0 <= j < k ==> (if by_name { v[j].1 } else { v[j].0 }) != key,
    ensures
        first_match(v, key, by_name, 0) == Some(k),
{
    lemma_first_match_from(v, key, by_name, k, 0);
}

proof fn lemma_first_match_from(v: Seq<(Seq<char>, Seq<char>)>, key: Seq<char>, by_name: bool, k: int, from: int)
    requires
        0 <= from <= k < v.len(),
        (if by_name { v[k].1 } else { v[k].0 }) == key,
        forall|j: int| from <= j < k ==> (if by_name { v[j].1 } else { v[j].0 }) != key,
    ensures
        first_match(v, key, by_name, from) == Some(k),
    decreases k - from,
{
    if from < k {
        lemma_first_match_from(v, key, by_name, k, from + 1);
    }
}

/// Unregistering removes the instance: with unique ids, no instance keeps
/// the id afterwards, and the others stay in order.
pub proof fn lemma_unregistered_id_is_gone(v: Seq<(Seq<char>, Seq<char>)>, id: Seq<char>)
    requires
        forall|i: int, j: int| 0 <= i < j < v.len() ==> v[i].0 != v[j].0,
    ensures
        forall|j: int| 0 <= j < unregistered(v, id).len() ==> #[trigger] unregistered(v, id)[j].0 != id,
{
    lemma_first_match_bounds(v, id, false, 0);
    match first_match(v, id, false, 0) {
        Some(i) => {
            let w = v.remove(i);
            assert forall|j: int| 0 <= j < w.len() implies #[trigger] w[j].0 != id by {
                if j < i {
                    assert(w[j] == v[j]);
                } else {
                    assert(w[j] == v[j + 1]);
                }
            }
        },
        None => {},
    }
}

proof fn lemma_first_record_matches<P>(records: Seq<FugueRecord<P>>, id: u64)
    ensures
        first_record_with_id(records, id) matches Some(r) ==> r.id == id,
    decreases records.len(),
{
    if records.len() > 0 && records[0].id != id {
        lemma_first_record_matches(records.drop_first(), id);
    }
}

/// What a cancel writes back is what waiting for the fugue's removal looks
/// for: no record keeps the id, and every other record stays.
pub proof fn lemma_without_id_is_gone<P>(records: Seq<FugueRecord<P>>, id: u64)
    ensures
        goal_met(WaitGoal::FugueGone(id), records_without_id(records, id)),
        forall|r: FugueRecord<P>| records.contains(r) && r.id != id ==> #[trigger] records_without_id(records, id).contains(r),
    decreases records.len(),
{
    if records.len() > 0 {
        let init = records.drop_last();
        lemma_without_id_is_gone(init, id);
        let rest = records_without_id(init, id);
        assert forall|r: FugueRecord<P>| records.contains(r) && r.id != id implies #[trigger] records_without_id(records, id).contains(r) by {
            let k = choose|k: int| 0 <= k < records.len() && records[k] == r;
            if k < records.len() - 1 {
                assert(init[k] == r);
                assert(rest.contains(r));
                let m = choose|m: int| 0 <= m < rest.len() && rest[m] == r;
                assert(records_without_id(records, id)[m] == r);
            } else {
                assert(records_without_id(records, id).last() == r);
            }
        }
        let out = records_without_id(records, id);
        assert forall|i: int| 0 <= i < out.len() implies #[trigger] out[i].id != id by {
            if i < rest.len() {
                assert(out[i] == rest[i]);
            }
        }
    }
}

/// What a cancel by tag writes back is what waiting for the tag's removal
/// looks for: no record keeps the tag, and every other record stays.
pub proof fn lemma_without_tag_is_gone<P>(records: Seq<FugueRecord<P>>, tag: String)
    ensures
        goal_met(WaitGoal::TagGone(tag), records_without_tag(records, tag@)),
        forall|r: FugueRecord<P>| records.contains(r) && !has_tag(r, tag@) ==> #[trigger] records_without_tag(records, tag@).contains(r),
    decreases records.len(),
{
    if records.len() > 0 {
        let init = records.drop_last();
        lemma_without_tag_is_gone(init, tag);
        let rest = records_without_tag(init, tag@);
        assert forall|r: FugueRecord<P>| records.contains(r) && !has_tag(r, tag@) implies #[trigger] records_without_tag(records, tag@).contains(r) by {
            let k = choose|k: int| 0 <= k < records.len() && records[k] == r;
            if k < records.len() - 1 {
                assert(init[k] == r);
                assert(rest.contains(r));
                let m = choose|m: int| 0 <= m < rest.len() && rest[m] == r;
                assert(records_without_tag(records, tag@)[m] == r);
            } else {
                assert(records_without_tag(records, tag@).last() == r);
            }
        }
        let out = records_without_tag(records, tag@);
        assert forall|i: int| 0 <= i < out.len() implies !has_tag(#[trigger] out[i], tag@) by {
            if i < rest.len() {
                assert(out[i] == rest[i]);
            }
        }
    }
}

} // verus!
