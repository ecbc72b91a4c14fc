//! The control protocol: the messages a client sends to add, inspect,
//! enable, disable, delete or fire timers while the scheduler runs, the
//! replies, and the rules by which a message selects and edits timers.
use vstd::prelude::*;

use crate::cmd_timer::CmdTimer;
use crate::error::Error;

verus! {

/// A timer's current position in the chain.
pub type TimerId = u16;

/// Which timers a message applies to.
pub enum Filter {
    /// Every timer of the chain.
    All,
    /// The timers with these ids, in this order.
    Selected(Vec<TimerId>),
    /// The timer with this id.
    One(TimerId),
}

impl Default for Filter {
    fn default() -> (r: Self)
        ensures
            r is All,
    {
        Filter::All
    }
}

/// The ids that `f` selects in a chain of `len` timers, in order.
pub open spec fn filter_ids(f: Filter, len: u16) -> Seq<TimerId> {
    match f {
        Filter::All => Seq::new(len as nat, |i: int| i as u16),
        Filter::Selected(ids) => ids@,
        Filter::One(id) => seq![id],
    }
}

/// The filter of a client's list of ids: every timer when the list is
/// empty, else the listed ones.
pub fn filter(ids: Vec<TimerId>) -> (r: Filter)
    ensures
        ids@.len() == 0 ==> r is All,
        ids@.len() > 0 ==> (r matches Filter::Selected(v) && v@ == ids@),
{
    if ids.len() == 0 {
        Filter::All
    } else {
        Filter::Selected(ids)
    }
}

impl Filter {
    /// The ids this filter selects in a chain of `len` timers, in order.
    pub fn iter(&self, len: TimerId) -> (r: Vec<TimerId>)
        ensures
            r@ == filter_ids(*self, len),
    {
        match self {
            Filter::All => {
                let mut r: Vec<TimerId> = Vec::new();
                let mut i: u16 = 0;
                while i < len
                    invariant
                        i <= len,
                        r@ == Seq::new(i as nat, |k: int| k as u16),
                    decreases len - i,
                {
                    r.push(i);
                    i = i + 1;
                    assert(r@ =~= Seq::new(i as nat, |k: int| k as u16));
                }
                assert(r@ =~= filter_ids(*self, len));
                r
            },
            Filter::Selected(ids) => ids.clone(),
            Filter::One(id) => {
                let r = vec![*id];
                assert(r@ =~= filter_ids(*self, len));
                r
            },
        }
    }
}

/// What a control message does to each selected timer.
#[derive(Clone, Copy, Debug, PartialEq, Eq, Structural)]
pub enum Action {
    /// Skip the timer.
    Disable,
    /// Stop skipping the timer.
    Enable,
    /// Fire the timer now, whatever the modules say beforehand.
    Trigger,
    /// Remove the timer from the chain.
    Delete,
}

/// Insert a timer at `index`, or at the end.
pub struct Add {
    /// Where to insert it; the end if absent.
    pub index: Option<TimerId>,
    /// Its threshold, in milliseconds.
    pub time: u64,
    /// The activation command's argument vector.
    pub activation: Vec<String>,
    /// The abortion command's argument vector.
    pub abortion: Vec<String>,
    /// The deactivation command's argument vector.
    pub deactivation: Vec<String>,
}

/// Apply an action to the selected timers.
pub struct Control {
    /// The timers it applies to.
    pub timer: Filter,
    /// What to do to each.
    pub action: Action,
}

/// Describe the selected timers.
pub struct Query {
    /// The timers it applies to.
    pub timer: Filter,
}

/// A request of a client.
pub enum Message {
    /// Insert a timer.
    Add(Add),
    /// Change the selected timers.
    Control(Control),
    /// Describe the selected timers.
    Query(Query),
}

/// A snapshot of one timer.
#[derive(Clone, Debug)]
pub struct QueryResult {
    /// Its id.
    pub timer: TimerId,
    /// Its threshold, in milliseconds.
    pub time: u64,
    /// The activation command's argument vector.
    pub activation: Vec<String>,
    /// The abortion command's argument vector.
    pub abortion: Vec<String>,
    /// The deactivation command's argument vector.
    pub deactivation: Vec<String>,
    /// Whether it is disabled.
    pub disabled: bool,
}

/// The answer to a request.
pub enum Reply {
    /// Done.
    Empty,
    /// The request could not be carried out.
    Error(String),
    /// The snapshots a query asked for.
    QueryResult(Vec<QueryResult>),
}

/// The message of the reply to an insertion past the end of the chain.
pub open spec fn index_error() -> Seq<char> {
    "index > length"@
}

/// Where an `Add` with `index` inserts into a chain of `len` timers; none
/// if that lies past the end.
pub open spec fn insertion_spec(index: Option<TimerId>, len: nat) -> Option<nat> {
    match index {
        None => Some(len),
        Some(i) => if i <= len {
            Some(i as nat)
        } else {
            None
        },
    }
}

/// Where an `Add` with `index` inserts into a chain of `len` timers.
pub fn insertion_index(index: Option<TimerId>, len: usize) -> (r: Option<usize>)
    ensures
        r matches Some(i) ==> insertion_spec(index, len as nat) == Some(i as nat),
        r is None ==> insertion_spec(index, len as nat) is None,
{
    match index {
        None => Some(len),
        Some(i) => if (i as usize) <= len {
            Some(i as usize)
        } else {
            None
        },
    }
}

/// Inserts `timer` into `timers` as an `Add` with `index` asks: the reply is
/// `Empty`, or an error that leaves the chain as it was when `index` lies
/// past its end.
pub fn insert_timer<T>(timers: &mut Vec<T>, index: Option<TimerId>, timer: T) -> (r: Reply)
    ensures
        match insertion_spec(index, old(timers)@.len()) {
            Some(i) => final(timers)@ == old(timers)@.insert(i as int, timer) && r is Empty,
            None => final(timers)@ == old(timers)@ && (r matches Reply::Error(m) && m@
                == index_error()),
        },
{
    match insertion_index(index, timers.len()) {
        Some(i) => {
            timers.insert(i, timer);
            Reply::Empty
        },
        None => {
            let m = "index > length".to_owned();
            Reply::Error(m)
        },
    }
}

/// The positions that a control message addresses, in order, when it
/// selects `ids` in a chain of `len` timers and `removed` timers have
/// already been deleted by it. An id is taken as counted before those
/// deletions: it is shifted down by `removed`, and skipped if it no longer
/// names a timer.
pub open spec fn targets_spec(ids: Seq<TimerId>, len: nat, delete: bool, removed: nat) -> Seq<nat>
    decreases ids.len(),
{
    if ids.len() == 0 {
        seq![]
    } else {
        let id = ids[0] as nat;
        let rest = ids.subrange(1, ids.len() as int);
        if id < removed || id >= len {
            targets_spec(rest, len, delete, removed)
        } else {
            seq![(id - removed) as nat] + targets_spec(
                rest,
                len,
                delete,
                if delete {
                    removed + 1
                } else {
                    removed
                },
            )
        }
    }
}

/// The positions, in order, that a control message with `action` on the
/// timers `filter` selects addresses in a chain of `len` timers.
pub fn control_targets(filter: &Filter, len: usize, action: Action) -> (r: Vec<usize>)
    requires
        len <= u16::MAX,
    ensures
        r@.map_values(|p: usize| p as nat) == targets_spec(
            filter_ids(*filter, len as u16),
            len as nat,
            action == Action::Delete,
            0,
        ),
{
    let ids = filter.iter(len as u16);
    let delete = action == Action::Delete;
    let ghost all = ids@;
    let mut r: Vec<usize> = Vec::new();
    let mut removed: usize = 0;
    let mut k: usize = 0;
    assert(all.subrange(0, all.len() as int) =~= all);
    assert(r@.map_values(|p: usize| p as nat) + targets_spec(all, len as nat, delete, 0)
        =~= targets_spec(all, len as nat, delete, 0));
    while k < ids.len()
        invariant
            k <= ids@.len(),
            all == ids@,
            removed <= k,
            r@.map_values(|p: usize| p as nat) + targets_spec(
                all.subrange(k as int, all.len() as int),
                len as nat,
                delete,
                removed as nat,
            ) == targets_spec(all, len as nat, delete, 0),
        decreases ids.len() - k,
    {
        let id = ids[k] as usize;
        let ghost rest = all.subrange(k as int, all.len() as int);
        assert(rest.subrange(1, rest.len() as int) =~= all.subrange(k + 1, all.len() as int));
        assert(rest[0] == all[k as int]);
        if id < removed || id >= len {
        } else {
            let ghost before = r@;
            let ghost tail = targets_spec(
                all.subrange(k + 1, all.len() as int),
                len as nat,
                delete,
                if delete {
                    (removed + 1) as nat
                } else {
                    removed as nat
                },
            );
            r.push(id - removed);
            assert(r@.map_values(|p: usize| p as nat) =~= before.map_values(|p: usize| p as nat)
                + seq![(id - removed) as nat]);
            assert(before.map_values(|p: usize| p as nat) + (seq![(id - removed) as nat] + tail)
                =~= r@.map_values(|p: usize| p as nat) + tail);
            if delete {
                removed = removed + 1;
            }
        }
        k = k + 1;
    }
    assert(all.subrange(k as int, all.len() as int) =~= Seq::<TimerId>::empty());
    assert(r@.map_values(|p: usize| p as nat) + Seq::<nat>::empty() =~= r@.map_values(
        |p: usize| p as nat,
    ));
    r
}

/// The ids of `ids` that name a timer of a chain of `len` timers, in order.
pub open spec fn kept_ids(ids: Seq<TimerId>, len: nat) -> Seq<TimerId>
    decreases ids.len(),
{
    if ids.len() == 0 {
        seq![]
    } else {
        let k = kept_ids(ids.drop_last(), len);
        if (ids.last() as nat) < len {
            k.push(ids.last())
        } else {
            k
        }
    }
}

/// `q` is the snapshot of the timer `c` under the id `id`.
pub open spec fn is_snapshot(q: QueryResult, id: TimerId, c: CmdTimer) -> bool {
    &&& q.timer == id
    &&& q.time == c.time
    &&& q.activation@ == c.activation@
    &&& q.abortion@ == c.abortion@
    &&& q.deactivation@ == c.deactivation@
    &&& q.disabled == c.disabled
}

fn clone_argv(v: &Vec<String>) -> (r: Vec<String>)
    ensures
        r@ == v@,
{
    let r = v.clone();
    assert(r@ =~= v@);
    r
}

/// The snapshot of the timer `c` under the id `id`.
pub fn snapshot(id: TimerId, c: &CmdTimer) -> (r: QueryResult)
    ensures
        is_snapshot(r, id, *c),
{
    QueryResult {
        timer: id,
        time: c.time,
        activation: clone_argv(&c.activation),
        abortion: clone_argv(&c.abortion),
        deactivation: clone_argv(&c.deactivation),
        disabled: c.disabled,
    }
}

/// The snapshots of the timers that `filter` selects, in its order; ids
/// that name no timer are left out.
pub fn query(timers: &Vec<CmdTimer>, filter: &Filter) -> (r: Vec<QueryResult>)
    requires
        timers@.len() <= u16::MAX,
    ensures
        ({
            let ids = kept_ids(filter_ids(*filter, timers@.len() as u16), timers@.len());
            &&& r@.len() == ids.len()
            &&& forall|k: int|
                0 <= k < ids.len() ==> is_snapshot(
                    #[trigger] r@[k],
                    ids[k],
                    timers@[ids[k] as int],
                )
        }),
{
    let len = timers.len();
    let ids = filter.iter(len as u16);
    let ghost all = ids@;
    let mut r: Vec<QueryResult> = Vec::new();
    let mut k: usize = 0;
    while k < ids.len()
        invariant
            k <= ids@.len(),
            all == ids@,
            len == timers@.len(),
            ({
                let kept = kept_ids(all.subrange(0, k as int), len as nat);
                &&& r@.len() == kept.len()
                &&& forall|j: int|
                    0 <= j < kept.len() ==> is_snapshot(
                        #[trigger] r@[j],
                        kept[j],
                        timers@[kept[j] as int],
                    )
            }),
        decreases ids.len() - k,
    {
        let id = ids[k];
        assert(all.subrange(0, k + 1).drop_last() =~= all.subrange(0, k as int));
        if (id as usize) < len {
            let q = snapshot(id, &timers[id as usize]);
            r.push(q);
        }
        k = k + 1;
    }
    assert(all.subrange(0, k as int) =~= all);
    r
}

/// Where a control message that fires timers reads the idle time.
pub trait IdleSource {
    /// The user's idle time, in milliseconds.
    fn get_idle(&self) -> (r: Result<u64, Error>);
}

/// The configurations `s` after a control message with `action` edited
/// the positions `targets`, in order; a position past the end (after
/// deletions) is passed over. Firing edits no configuration.
pub open spec fn edited(s: Seq<CmdTimer>, targets: Seq<nat>, action: Action) -> Seq<CmdTimer>
    decreases targets.len(),
{
    if targets.len() == 0 {
        s
    } else {
        let before = edited(s, targets.drop_last(), action);
        let i = targets.last();
        if i < before.len() {
            match action {
                Action::Disable => before.update(i as int, CmdTimer { disabled: true, ..before[i as int] }),
                Action::Enable => before.update(i as int, CmdTimer { disabled: false, ..before[i as int] }),
                Action::Delete => before.remove(i as int),
                Action::Trigger => before,
            }
        } else {
            before
        }
    }
}

} // verus!
