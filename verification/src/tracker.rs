//! The replicated log of the store, with its snapshot bookkeeping.
use vstd::prelude::*;
use crate::frame::{Frame, FrameModel};
use crate::frame::dec_chars;
use crate::command::text;

verus! {

pub type Index = u64;

pub type Term = u64;

/// A log entry: the term it was appended in and the request it holds.
#[derive(Debug)]
pub struct Cell(pub Term, pub Frame);

/// The log and the indices that track it.
#[derive(Debug)]
pub struct KvsTracker {
    log: Vec<Cell>,
    last_log_index: Index,
    snapshot_no: u64,
    snapshot_offset: u64,
    last_log_term: Term,
    last_commited_index: Index,
    addr: String,
    snapshot_path: String,
    last_snapshot_term: Term,
    last_snapshot_index: Index,
}

/// The value of a tracker.
pub struct TrackerModel {
    pub log: Seq<(Term, FrameModel)>,
    pub last_log_index: Index,
    pub snapshot_no: u64,
    pub snapshot_offset: u64,
    pub last_log_term: Term,
    pub last_commited_index: Index,
    pub last_snapshot_term: Term,
    pub last_snapshot_index: Index,
}

pub open spec fn cells_model(log: Seq<Cell>) -> Seq<(Term, FrameModel)> {
    Seq::new(log.len(), |i: int| (log[i].0, log[i].1.model()))
}

impl View for KvsTracker {
    type V = TrackerModel;

    closed spec fn view(&self) -> TrackerModel {
        TrackerModel {
            log: cells_model(self.log@),
            last_log_index: self.last_log_index,
            snapshot_no: self.snapshot_no,
            snapshot_offset: self.snapshot_offset,
            last_log_term: self.last_log_term,
            last_commited_index: self.last_commited_index,
            last_snapshot_term: self.last_snapshot_term,
            last_snapshot_index: self.last_snapshot_index,
        }
    }
}

/// The tracker after an entry `e` of term `term` is appended.
pub open spec fn appended(t: TrackerModel, term: Term, e: FrameModel) -> TrackerModel {
    TrackerModel {
        log: t.log.push((term, e)),
        last_log_index: (t.last_log_index + 1) as u64,
        last_log_term: term,
        ..t
    }
}

/// A tracker is valid: the snapshot's index and the entries the log holds
/// past it reach no further than the last index, and the commit index lies
/// between the snapshot's index and the last index.
pub open spec fn valid(t: TrackerModel) -> bool {
    &&& t.last_snapshot_index + t.log.len() <= t.last_log_index
    &&& t.last_snapshot_index <= t.last_commited_index <= t.last_log_index
}

/// The indices agree with the log: the last index is the snapshot's plus the
/// number of entries held, and the last term is that of the last entry (the
/// snapshot's, when the log holds none). Appends and snapshots keep this;
/// dropping the last entry leaves the last index and term where they were.
pub open spec fn lined_up(t: TrackerModel) -> bool {
    &&& t.last_log_index == t.last_snapshot_index + t.log.len()
    &&& t.last_log_term == if t.log.len() == 0 {
        t.last_snapshot_term
    } else {
        t.log.last().0
    }
}

/// How many entries a snapshot takes out of the log: those up to the last
/// committed index, as far as the log holds them.
pub open spec fn snapshot_cut(t: TrackerModel) -> int {
    if t.last_commited_index - t.last_snapshot_index <= t.log.len() {
        t.last_commited_index - t.last_snapshot_index
    } else {
        t.log.len() as int
    }
}

/// The tracker after a snapshot of the store up to its last committed entry:
/// the committed entries leave the log, the snapshot's index is the last
/// committed index and its term that of the last entry taken out (the old
/// snapshot's, when none is).
pub open spec fn snapshotted(t: TrackerModel) -> TrackerModel {
    let k = snapshot_cut(t);
    TrackerModel {
        log: t.log.subrange(k, t.log.len() as int),
        snapshot_no: (t.snapshot_no + 1) as u64,
        last_snapshot_term: if k == 0 {
            t.last_snapshot_term
        } else {
            t.log[k - 1].0
        },
        last_snapshot_index: t.last_commited_index,
        ..t
    }
}

/// The entry at `index` is held in the log (past the snapshot).
pub open spec fn in_log(t: TrackerModel, index: u64) -> bool {
    t.last_snapshot_index < index && index - 1 - t.last_snapshot_index < t.log.len()
}

/// The term of the entry at `index` is known: the snapshot's own, or one in
/// the log.
pub open spec fn term_known(t: TrackerModel, index: u64) -> bool {
    t.last_snapshot_index <= index && (index > t.last_snapshot_index ==> in_log(t, index))
}

/// The term of the entry at `index`.
pub open spec fn log_term(t: TrackerModel, index: u64) -> u64 {
    if index == t.last_snapshot_index {
        t.last_snapshot_term
    } else {
        t.log[index - 1 - t.last_snapshot_index].0
    }
}

/// The path of the snapshot numbered `no` in the directory `path`:
/// `path/no.ga`, as `format!` writes it.
#[verifier::external_body]
fn snapshot_file_name(path: &str, no: u64) -> (r: String)
    ensures
        r@ == path@ + "/"@ + dec_chars(no as nat) + ".ga"@,
{
    format!("{}/{}.ga", path, no)
}

/// The request that makes the store send a snapshot of itself.
pub fn snap_request() -> (r: Frame)
    ensures
        r.model() == FrameModel::Array(seq![FrameModel::Simple("snap"@)]),
{
    let items = vec![Frame::Simple(text("snap"))];
    proof {
        crate::frame::lemma_array_model(items);
        assert(crate::frame::models(items@) =~= seq![FrameModel::Simple("snap"@)]);
    }
    Frame::Array(items)
}

impl KvsTracker {
    #[verifier::type_invariant]
    spec fn is_valid(&self) -> bool {
        valid(self@)
    }

    /// An empty tracker that stands in while another is taken apart.
    fn blank() -> (t: KvsTracker)
        ensures
            t@.log.len() == 0,
    {
        let t = KvsTracker {
            log: Vec::new(),
            last_log_index: 0,
            last_log_term: 0,
            last_commited_index: 0,
            snapshot_no: 0,
            snapshot_offset: 0,
            addr: String::new(),
            snapshot_path: String::new(),
            last_snapshot_term: 0,
            last_snapshot_index: 0,
        };
        proof {
            assert(cells_model(t.log@) =~= Seq::<(Term, FrameModel)>::empty());
        }
        t
    }

    pub closed spec fn addr_spec(&self) -> Seq<char> {
        self.addr@
    }

    pub closed spec fn snapshot_path_spec(&self) -> Seq<char> {
        self.snapshot_path@
    }

    /// An empty log; `addr` is where the store listens, `snapshot_path` the
    /// directory of the snapshot files.
    pub fn new(addr: String, snapshot_path: String, snapshot_offset: u64) -> (t: KvsTracker)
        ensures
            t@ == (TrackerModel {
                log: Seq::empty(),
                last_log_index: 0,
                snapshot_no: 0,
                snapshot_offset,
                last_log_term: 0,
                last_commited_index: 0,
                last_snapshot_term: 0,
                last_snapshot_index: 0,
            }),
            t.addr_spec() == addr@,
            t.snapshot_path_spec() == snapshot_path@,
            valid(t@),
    {
        let t = KvsTracker {
            log: Vec::new(),
            last_log_index: 0,
            last_log_term: 0,
            last_commited_index: 0,
            snapshot_no: 0,
            snapshot_offset,
            addr,
            snapshot_path,
            last_snapshot_term: 0,
            last_snapshot_index: 0,
        };
        proof {
            assert(cells_model(t.log@) =~= Seq::<(Term, FrameModel)>::empty());
        }
        t
    }

    pub fn addr(&self) -> (r: &String)
        ensures
            r@ == self.addr_spec(),
    {
        &self.addr
    }

    pub fn snapshot_path(&self) -> (r: &String)
        ensures
            r@ == self.snapshot_path_spec(),
    {
        &self.snapshot_path
    }

    /// The file the snapshot numbered `no` is written to.
    pub fn snapshot_file(&self, no: u64) -> (r: String)
        ensures
            r@ == self.snapshot_path_spec() + "/"@ + dec_chars(no as nat) + ".ga"@,
    {
        snapshot_file_name(self.snapshot_path.as_str(), no)
    }

    /// The file of the last snapshot taken.
    pub fn last_snapshot_file(&self) -> (r: String)
        requires
            self@.snapshot_no > 0,
        ensures
            r@ == self.snapshot_path_spec() + "/"@ + dec_chars((self@.snapshot_no - 1) as nat)
                + ".ga"@,
    {
        self.snapshot_file(self.snapshot_no - 1)
    }

    /// How many entries the log holds past the snapshot.
    pub fn log_len(&self) -> (r: usize)
        ensures
            r == self@.log.len(),
    {
        self.log.len()
    }

    /// Whether the entry at `index` is held in the log (see `in_log`).
    pub fn has_entry(&self, index: Index) -> (r: bool)
        ensures
            r == in_log(self@, index),
    {
        self.last_snapshot_index < index && index - 1 - self.last_snapshot_index < self.log.len() as u64
    }

    /// Whether the term of the entry at `index` is known (see `term_known`).
    pub fn has_term(&self, index: Index) -> (r: bool)
        ensures
            r == term_known(self@, index),
    {
        self.last_snapshot_index <= index && (index == self.last_snapshot_index || self.has_entry(
            index,
        ))
    }

    pub fn get_last_log_index(&self) -> (r: Index)
        ensures
            r == self@.last_log_index,
    {
        self.last_log_index
    }

    pub fn get_last_log_term(&self) -> (r: Term)
        ensures
            r == self@.last_log_term,
    {
        self.last_log_term
    }

    pub fn get_last_commited_index(&self) -> (r: Index)
        ensures
            r == self@.last_commited_index,
    {
        self.last_commited_index
    }

    pub fn get_last_snapshot_index(&self) -> (r: Index)
        ensures
            r == self@.last_snapshot_index,
    {
        self.last_snapshot_index
    }

    pub fn get_last_snapshot_term(&self) -> (r: Term)
        ensures
            r == self@.last_snapshot_term,
    {
        self.last_snapshot_term
    }

    pub fn get_snapshot_no(&self) -> (r: u64)
        ensures
            r == self@.snapshot_no,
    {
        self.snapshot_no
    }

    /// The request of the entry at `index`; entry `last_snapshot_index + 1` is
    /// the first one the log holds.
    pub fn get_log_entity(&self, index: Index) -> (r: &Frame)
        requires
            self@.last_snapshot_index < index,
            index - 1 - self@.last_snapshot_index < self@.log.len(),
        ensures
            r.model() == self@.log[index - 1 - self@.last_snapshot_index].1,
    {
        let i = index - 1 - self.last_snapshot_index;
        let n = self.log.len();
        proof {
            assert(cells_model(self.log@)[i as int] == (self.log@[i as int].0, self.log@[i as int].1.model()));
        }
        &self.log[i as usize].1
    }

    /// The term of the entry at `index`; at the snapshot's own index, the
    /// snapshot's term.
    pub fn get_log_term(&self, index: Index) -> (r: Term)
        requires
            self@.last_snapshot_index <= index,
            index > self@.last_snapshot_index ==> index - 1 - self@.last_snapshot_index
                < self@.log.len(),
        ensures
            index == self@.last_snapshot_index ==> r == self@.last_snapshot_term,
            index > self@.last_snapshot_index ==> r == self@.log[index - 1
                - self@.last_snapshot_index].0,
    {
        if index == self.last_snapshot_index {
            return self.last_snapshot_term;
        }
        let i = index - 1 - self.last_snapshot_index;
        let n = self.log.len();
        proof {
            assert(cells_model(self.log@)[i as int] == (self.log@[i as int].0, self.log@[i as int].1.model()));
        }
        self.log[i as usize].0
    }

    /// Appends an entry of term `term`; returns its index.
    pub fn append_log(&mut self, entity: Frame, term: Term) -> (r: Result<Index, String>)
        requires
            old(self)@.last_log_index < u64::MAX,
        ensures
            r == Ok::<Index, String>((old(self)@.last_log_index + 1) as u64),
            final(self)@ == appended(old(self)@, term, entity.model()),
            valid(old(self)@),
            valid(final(self)@),
            final(self).addr_spec() == old(self).addr_spec(),
            final(self).snapshot_path_spec() == old(self).snapshot_path_spec(),
    {
        proof {
            use_type_invariant(&*self);
        }
        let ghost em = entity.model();
        let mut t = KvsTracker::blank();
        std::mem::swap(&mut t, self);
        let KvsTracker {
            mut log,
            last_log_index,
            snapshot_no,
            snapshot_offset,
            last_log_term: _,
            last_commited_index,
            addr,
            snapshot_path,
            last_snapshot_term,
            last_snapshot_index,
        } = t;
        let ghost before = log@;
        log.push(Cell(term, entity));
        proof {
            assert(cells_model(log@) =~= cells_model(before).push((term, em)));
        }
        *self = KvsTracker {
            log,
            last_log_index: last_log_index + 1,
            snapshot_no,
            snapshot_offset,
            last_log_term: term,
            last_commited_index,
            addr,
            snapshot_path,
            last_snapshot_term,
            last_snapshot_index,
        };
        Ok(last_log_index + 1)
    }

    /// Drops the last entry of the log; the indices and terms stay as they
    /// were.
    pub fn delete_last_log(&mut self) -> (r: Result<(), String>)
        ensures
            valid(old(self)@),
            valid(final(self)@),
            old(self)@.log.len() == 0 ==> (r matches Err(m) && m@ == "The log is empty"@)
                && final(self)@ == old(self)@,
            old(self)@.log.len() > 0 ==> r is Ok && final(self)@ == (TrackerModel {
                log: old(self)@.log.drop_last(),
                ..old(self)@
            }),
            final(self).addr_spec() == old(self).addr_spec(),
            final(self).snapshot_path_spec() == old(self).snapshot_path_spec(),
    {
        proof {
            use_type_invariant(&*self);
        }
        if self.log.len() == 0 {
            return Err(text("The log is empty"));
        }
        let mut t = KvsTracker::blank();
        std::mem::swap(&mut t, self);
        let KvsTracker {
            mut log,
            last_log_index,
            snapshot_no,
            snapshot_offset,
            last_log_term,
            last_commited_index,
            addr,
            snapshot_path,
            last_snapshot_term,
            last_snapshot_index,
        } = t;
        let ghost before = log@;
        log.pop();
        proof {
            assert(cells_model(log@) =~= cells_model(before).drop_last());
        }
        *self = KvsTracker {
            log,
            last_log_index,
            snapshot_no,
            snapshot_offset,
            last_log_term,
            last_commited_index,
            addr,
            snapshot_path,
            last_snapshot_term,
            last_snapshot_index,
        };
        Ok(())
    }

    /// Records a snapshot taken of the store up to the last committed entry
    /// (see `snapshotted`): the committed entries leave the log.
    pub fn take_snapshot(&mut self)
        requires
            old(self)@.snapshot_no < u64::MAX,
        ensures
            valid(old(self)@),
            valid(final(self)@),
            final(self)@ == snapshotted(old(self)@),
            final(self).addr_spec() == old(self).addr_spec(),
            final(self).snapshot_path_spec() == old(self).snapshot_path_spec(),
    {
        proof {
            use_type_invariant(&*self);
        }
        let mut t = KvsTracker::blank();
        std::mem::swap(&mut t, self);
        let KvsTracker {
            mut log,
            last_log_index,
            snapshot_no,
            snapshot_offset,
            last_log_term,
            last_commited_index,
            addr,
            snapshot_path,
            last_snapshot_term,
            last_snapshot_index,
        } = t;
        let ghost before = log@;
        let n = log.len();
        let k: usize = if last_commited_index - last_snapshot_index <= n as u64 {
            (last_commited_index - last_snapshot_index) as usize
        } else {
            n
        };
        let term = if k == 0 {
            last_snapshot_term
        } else {
            log[k - 1].0
        };
        let rest = log.split_off(k);
        proof {
            let m = cells_model(before);
            assert(cells_model(rest@) =~= m.subrange(k as int, before.len() as int));
            if k > 0 {
                assert(m[k - 1] == (before[k - 1].0, before[k - 1].1.model()));
            }
        }
        *self = KvsTracker {
            log: rest,
            last_log_index,
            snapshot_no: snapshot_no + 1,
            snapshot_offset,
            last_log_term,
            last_commited_index,
            addr,
            snapshot_path,
            last_snapshot_term: term,
            last_snapshot_index: last_commited_index,
        };
    }

    /// Records a snapshot installed from the leader: the log is emptied and
    /// every index and term moves to the snapshot's.
    pub fn load_snapshot(&mut self, last_log_term: Term, last_log_index: Index)
        requires
            old(self)@.snapshot_no < u64::MAX,
        ensures
            valid(old(self)@),
            valid(final(self)@),
            final(self)@ == (TrackerModel {
                log: Seq::empty(),
                snapshot_no: (old(self)@.snapshot_no + 1) as u64,
                last_log_index,
                last_log_term,
                last_snapshot_term: last_log_term,
                last_snapshot_index: last_log_index,
                last_commited_index: last_log_index,
                ..old(self)@
            }),
            final(self).addr_spec() == old(self).addr_spec(),
            final(self).snapshot_path_spec() == old(self).snapshot_path_spec(),
    {
        proof {
            use_type_invariant(&*self);
        }
        let mut t = KvsTracker::blank();
        std::mem::swap(&mut t, self);
        let KvsTracker {
            log: _,
            last_log_index: _,
            snapshot_no,
            snapshot_offset,
            last_log_term: _,
            last_commited_index: _,
            addr,
            snapshot_path,
            last_snapshot_term: _,
            last_snapshot_index: _,
        } = t;
        let log: Vec<Cell> = Vec::new();
        proof {
            assert(cells_model(log@) =~= Seq::<(Term, FrameModel)>::empty());
        }
        *self = KvsTracker {
            log,
            last_log_index,
            snapshot_no: snapshot_no + 1,
            snapshot_offset,
            last_log_term,
            last_commited_index: last_log_index,
            addr,
            snapshot_path,
            last_snapshot_term: last_log_term,
            last_snapshot_index: last_log_index,
        };
    }

    /// The entry to commit at `index` (counted from the snapshot, from 0): only
    /// the entry right after the last committed one can be committed.
    pub fn commit(&self, index: Index) -> (r: Result<&Frame, String>)
        requires
            self@.last_snapshot_index <= index,
            index < u64::MAX,
            self@.last_commited_index < u64::MAX,
            index == self@.last_commited_index ==> index - self@.last_snapshot_index
                < self@.log.len(),
        ensures
            index != self@.last_commited_index ==> (r matches Err(m) && m@
                == "Wrong commit index"@),
            index == self@.last_commited_index ==> (r matches Ok(f) && f.model() == self@.log[index
                - self@.last_snapshot_index].1),
    {
        let i = index - self.get_last_snapshot_index();
        if index + 1 != self.last_commited_index + 1 {
            return Err(text("Wrong commit index"));
        }
        let n = self.log.len();
        proof {
            assert(cells_model(self.log@)[i as int] == (self.log@[i as int].0, self.log@[i as int].1.model()));
        }
        Ok(&self.log[i as usize].1)
    }

    /// Takes the store's reply to the entry after the last committed one: a
    /// simple or bulk reply counts it as committed; any other reply is handed
    /// back as the error.
    pub fn commit_reply(&mut self, response: Frame) -> (r: Result<Frame, Frame>)
        requires
            old(self)@.last_commited_index < old(self)@.last_log_index,
        ensures
            valid(old(self)@),
            valid(final(self)@),
            (response is Simple || response is Bulk) ==> (r matches Ok(f) && f.model()
                == response.model() && final(self)@ == (TrackerModel {
                last_commited_index: (old(self)@.last_commited_index + 1) as u64,
                ..old(self)@
            })),
            !(response is Simple || response is Bulk) ==> (r matches Err(f) && f.model()
                == response.model() && final(self)@ == old(self)@),
            final(self).addr_spec() == old(self).addr_spec(),
            final(self).snapshot_path_spec() == old(self).snapshot_path_spec(),
    {
        proof {
            use_type_invariant(&*self);
        }
        let counts = match &response {
            Frame::Simple(_) => true,
            Frame::Bulk(_) => true,
            _ => false,
        };
        if !counts {
            return Err(response);
        }
        let mut t = KvsTracker::blank();
        std::mem::swap(&mut t, self);
        let KvsTracker {
            log,
            last_log_index,
            snapshot_no,
            snapshot_offset,
            last_log_term,
            last_commited_index,
            addr,
            snapshot_path,
            last_snapshot_term,
            last_snapshot_index,
        } = t;
        *self = KvsTracker {
            log,
            last_log_index,
            snapshot_no,
            snapshot_offset,
            last_log_term,
            last_commited_index: last_commited_index + 1,
            addr,
            snapshot_path,
            last_snapshot_term,
            last_snapshot_index,
        };
        Ok(response)
    }
}

/// In a valid log whose indices agree with its entries, the entry at the
/// index an append returns is the one appended, with its term; the entries
/// before it stay as they were, and the log stays valid and lined up.
pub proof fn law_read_after_append(t: TrackerModel, term: Term, e: FrameModel)
    requires
        valid(t),
        lined_up(t),
        t.last_log_index < u64::MAX,
    ensures
        ({
            let u = appended(t, term, e);
            &&& valid(u)
            &&& lined_up(u)
            &&& in_log(u, u.last_log_index)
            &&& u.log[u.last_log_index - 1 - u.last_snapshot_index] == (term, e)
            &&& log_term(u, u.last_log_index) == term
            &&& forall|j: u64|
                in_log(t, j) ==> in_log(u, j) && #[trigger] u.log[j - 1 - u.last_snapshot_index]
                    == t.log[j - 1 - t.last_snapshot_index]
        }),
{
}

/// A snapshot keeps the log valid and drops only committed entries: in a log
/// whose indices agree with its entries, every entry past the last committed
/// one stays at its index, the log stays lined up, and the snapshot's term is
/// the term of the last committed entry.
pub proof fn law_snapshot_keeps_uncommitted(t: TrackerModel)
    requires
        valid(t),
        lined_up(t),
    ensures
        ({
            let u = snapshotted(t);
            &&& valid(u)
            &&& lined_up(u)
            &&& u.last_snapshot_index == t.last_commited_index
            &&& log_term(u, u.last_snapshot_index) == log_term(t, t.last_commited_index)
            &&& forall|j: u64|
                t.last_commited_index < j <= t.last_log_index ==> in_log(u, j)
                    && #[trigger] u.log[j - 1 - u.last_snapshot_index] == t.log[j - 1
                    - t.last_snapshot_index]
        }),
{
    let u = snapshotted(t);
    let k = t.last_commited_index - t.last_snapshot_index;
    assert(snapshot_cut(t) == k);
    if u.log.len() > 0 {
        assert(u.log.last() == t.log.last());
    } else if k > 0 {
        assert(t.log.last() == t.log[k - 1]);
    }
}

/// Dropping the last entry undoes an append on the log's entries: the
/// entries are those before the append; the indices and terms stay where the
/// append moved them.
pub proof fn law_delete_undoes_append(t: TrackerModel, term: Term, e: FrameModel)
    requires
        valid(t),
        t.last_log_index < u64::MAX,
    ensures
        ({
            let u = appended(t, term, e);
            &&& u.log.len() > 0
            &&& (TrackerModel { log: u.log.drop_last(), ..u }) == (TrackerModel {
                last_log_index: u.last_log_index,
                last_log_term: u.last_log_term,
                ..t
            })
        }),
{
    let u = appended(t, term, e);
    assert(u.log.drop_last() =~= t.log);
}

} // verus!
