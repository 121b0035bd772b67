//! In-memory image of the directories the engine works on: a mapping from
//! path to file bytes, plus a journal of the writes and removals the engine
//! performed, in order, for the host to replay onto real storage.

use vstd::prelude::*;

verus! {

/// One recorded file operation.
pub enum DiskOp {
    /// The file at the path now holds exactly these bytes.
    Write(String, Vec<u8>),
    /// The file at the path is gone.
    Remove(String),
}

/// The journal only ever grows: `log1` continues `log0`.
pub open spec fn log_extends(log0: Seq<DiskOp>, log1: Seq<DiskOp>) -> bool {
    log1.len() >= log0.len() && forall|i: int| 0 <= i < log0.len() ==> log1[i] == log0[i]
}

/// What one journal operation does to a file tree.
pub open spec fn apply_op(
    m: Map<Seq<char>, Seq<u8>>,
    op: DiskOp,
) -> Map<Seq<char>, Seq<u8>> {
    match op {
        DiskOp::Write(p, b) => m.insert(p@, b@),
        DiskOp::Remove(p) => m.remove(p@),
    }
}

/// What replaying a journal, oldest operation first, does to a file tree.
pub open spec fn apply_ops(
    m: Map<Seq<char>, Seq<u8>>,
    ops: Seq<DiskOp>,
) -> Map<Seq<char>, Seq<u8>>
    decreases ops.len(),
{
    if ops.len() == 0 {
        m
    } else {
        apply_ops(apply_op(m, ops[0]), ops.skip(1))
    }
}

pub proof fn lemma_apply_ops_concat(
    m: Map<Seq<char>, Seq<u8>>,
    ops1: Seq<DiskOp>,
    ops2: Seq<DiskOp>,
)
    ensures
        apply_ops(m, ops1 + ops2) == apply_ops(apply_ops(m, ops1), ops2),
    decreases ops1.len(),
{
    if ops1.len() == 0 {
        assert(ops1 + ops2 =~= ops2);
    } else {
        assert((ops1 + ops2)[0] == ops1[0]);
        assert((ops1 + ops2).skip(1) =~= ops1.skip(1) + ops2);
        lemma_apply_ops_concat(apply_op(m, ops1[0]), ops1.skip(1), ops2);
    }
}

/// Some operation of the run removes the file at `key`.
pub open spec fn removed_in(ops: Seq<DiskOp>, key: Seq<char>) -> bool {
    exists|j: int|
        0 <= j < ops.len() && ((#[trigger] ops[j]) matches DiskOp::Remove(p) && p@ == key)
}

/// A file that the run made disappear was removed by one of its
/// operations: writes never delete.
pub proof fn lemma_apply_ops_removed(
    m: Map<Seq<char>, Seq<u8>>,
    ops: Seq<DiskOp>,
    key: Seq<char>,
)
    requires
        m.contains_key(key),
        !apply_ops(m, ops).contains_key(key),
    ensures
        removed_in(ops, key),
    decreases ops.len(),
{
    if ops.len() > 0 {
        let m1 = apply_op(m, ops[0]);
        if m1.contains_key(key) {
            lemma_apply_ops_removed(m1, ops.skip(1), key);
            let j = choose|j: int|
                0 <= j < ops.skip(1).len() && ((#[trigger] ops.skip(1)[j]) matches DiskOp::Remove(
                    p,
                ) && p@ == key);
            assert(ops[j + 1] == ops.skip(1)[j]);
        } else {
            assert(ops[0] matches DiskOp::Remove(p) && p@ == key);
        }
    }
}

/// A removal already journalled stays journalled as the run goes on.
pub proof fn lemma_removed_in_extends(ops1: Seq<DiskOp>, ops2: Seq<DiskOp>, key: Seq<char>)
    requires
        log_extends(ops1, ops2),
        removed_in(ops1, key),
    ensures
        removed_in(ops2, key),
{
    let j = choose|j: int|
        0 <= j < ops1.len() && ((#[trigger] ops1[j]) matches DiskOp::Remove(p) && p@ == key);
    assert(ops2[j] == ops1[j]);
}

pub proof fn lemma_apply_single(m: Map<Seq<char>, Seq<u8>>, op: DiskOp)
    ensures
        apply_ops(m, seq![op]) == apply_op(m, op),
{
    assert(seq![op].skip(1) =~= Seq::<DiskOp>::empty());
    assert(apply_ops(apply_op(m, op), Seq::<DiskOp>::empty()) == apply_op(m, op));
}

/// The tree `b` holds is exactly the tree `a` held with the operations `b`
/// journalled since replayed onto it: the journal reproduces the run.
pub open spec fn journal_faithful(a: Disk, b: Disk) -> bool {
    &&& log_extends(a.log_entries(), b.log_entries())
    &&& b@ == apply_ops(a@, b.log_entries().skip(a.log_entries().len() as int))
}

pub broadcast proof fn lemma_journal_faithful_refl(a: Disk)
    ensures
        #[trigger] journal_faithful(a, a),
{
    assert(a.log_entries().skip(a.log_entries().len() as int) =~= Seq::<DiskOp>::empty());
}

pub proof fn lemma_journal_faithful_trans(a: Disk, b: Disk, c: Disk)
    requires
        journal_faithful(a, b),
        journal_faithful(b, c),
    ensures
        journal_faithful(a, c),
{
    lemma_journal_steps(
        a@,
        b@,
        c@,
        a.log_entries(),
        b.log_entries(),
        c.log_entries(),
    );
}

/// Two journalled steps in a row replay as one: composing the suffixes of
/// the growing journal composes their effects.
pub proof fn lemma_journal_steps(
    d0: Map<Seq<char>, Seq<u8>>,
    d1: Map<Seq<char>, Seq<u8>>,
    d2: Map<Seq<char>, Seq<u8>>,
    log0: Seq<DiskOp>,
    log1: Seq<DiskOp>,
    log2: Seq<DiskOp>,
)
    requires
        log_extends(log0, log1),
        log_extends(log1, log2),
        d1 == apply_ops(d0, log1.skip(log0.len() as int)),
        d2 == apply_ops(d1, log2.skip(log1.len() as int)),
    ensures
        d2 == apply_ops(d0, log2.skip(log0.len() as int)),
{
    assert(log2.skip(log0.len() as int) =~= log1.skip(log0.len() as int) + log2.skip(
        log1.len() as int,
    ));
    lemma_apply_ops_concat(
        d0,
        log1.skip(log0.len() as int),
        log2.skip(log1.len() as int),
    );
}

/// An in-memory file tree with an operation journal.
pub struct Disk {
    files: vstd::hash_map::StringHashMap<Vec<u8>>,
    log: Vec<DiskOp>,
}

impl View for Disk {
    type V = Map<Seq<char>, Seq<u8>>;

    closed spec fn view(&self) -> Map<Seq<char>, Seq<u8>> {
        self.files@.map_values(|b: Vec<u8>| b@)
    }
}

impl Disk {
    /// The operations performed so far, oldest first.
    pub closed spec fn log_entries(&self) -> Seq<DiskOp> {
        self.log@
    }

    /// An empty tree with an empty journal.
    pub fn new() -> (r: Disk)
        ensures
            r@ == Map::<Seq<char>, Seq<u8>>::empty(),
            r.log_entries().len() == 0,
    {
        let r = Disk { files: vstd::hash_map::StringHashMap::new(), log: Vec::new() };
        proof {
            assert(r@ =~= Map::<Seq<char>, Seq<u8>>::empty());
        }
        r
    }

    /// Loads a pre-existing file into the image without recording an
    /// operation; for the host to fill the image before a run.
    pub fn preload(&mut self, path: String, bytes: Vec<u8>)
        ensures
            final(self)@ == old(self)@.insert(path@, bytes@),
            final(self).log_entries() == old(self).log_entries(),
    {
        let ghost pv = path@;
        let ghost bv = bytes@;
        self.files.insert(path, bytes);
        proof {
            assert(final(self)@ =~= old(self)@.insert(pv, bv));
        }
    }

    /// Whether a file exists at the path.
    pub fn has_file(&self, path: &str) -> (r: bool)
        ensures
            r == self@.contains_key(path@),
    {
        self.files.contains_key(path)
    }

    /// The bytes at the path, if a file is there.
    pub fn read<'a>(&'a self, path: &str) -> (r: Option<&'a Vec<u8>>)
        ensures
            match r {
                Some(b) => self@.contains_key(path@) && b@ == self@[path@],
                None => !self@.contains_key(path@),
            },
    {
        self.files.get(path)
    }

    /// Writes a file and records the operation.
    pub fn write(&mut self, path: String, bytes: Vec<u8>)
        ensures
            final(self)@ == old(self)@.insert(path@, bytes@),
            final(self).log_entries() == old(self).log_entries().push(
                DiskOp::Write(path, bytes),
            ),
    {
        let ghost pv = path@;
        let ghost bv = bytes@;
        let path2 = path.clone();
        let bytes2 = bytes.clone();
        self.files.insert(path2, bytes2);
        self.log.push(DiskOp::Write(path, bytes));
        proof {
            assert(final(self)@ =~= old(self)@.insert(pv, bv));
        }
    }

    /// Removes the file at the path, if any, and records the operation.
    pub fn remove(&mut self, path: &str)
        ensures
            final(self)@ == old(self)@.remove(path@),
            final(self).log_entries().len() == old(self).log_entries().len() + 1,
            final(self).log_entries().take(old(self).log_entries().len() as int) == old(
                self,
            ).log_entries(),
            match final(self).log_entries().last() {
                DiskOp::Remove(p) => p@ == path@,
                _ => false,
            },
    {
        self.files.remove(path);
        self.log.push(DiskOp::Remove(path.to_owned()));
        proof {
            assert(final(self)@ =~= old(self)@.remove(path@));
            assert(final(self).log_entries().take(old(self).log_entries().len() as int)
                =~= old(self).log_entries());
        }
    }

    /// The journal, for the host to replay.
    pub fn journal(&self) -> (r: &Vec<DiskOp>)
        ensures
            r@ == self.log_entries(),
    {
        &self.log
    }
}

} // verus!
