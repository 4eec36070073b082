use vstd::prelude::*;

verus! {

/// The decimal digits of `n`, most significant first.
pub open spec fn spec_decimal(n: nat) -> Seq<char>
    decreases n,
{
    if n < 10 {
        seq![digit_char(n)]
    } else {
        spec_decimal(n / 10) + seq![digit_char(n % 10)]
    }
}

/// The character for one decimal digit.
pub open spec fn digit_char(d: nat) -> char {
    if d == 0 {
        '0'
    } else if d == 1 {
        '1'
    } else if d == 2 {
        '2'
    } else if d == 3 {
        '3'
    } else if d == 4 {
        '4'
    } else if d == 5 {
        '5'
    } else if d == 6 {
        '6'
    } else if d == 7 {
        '7'
    } else if d == 8 {
        '8'
    } else {
        '9'
    }
}

/// The unique request key formed from a base key and a sequence number:
/// the base key, a `#` separator, and the sequence number in decimal.
pub open spec fn key_of(base: Seq<char>, seq: u64) -> Seq<char> {
    base + seq!['#'] + spec_decimal(seq as nat)
}

/// `p` is a prefix of `s`.
pub open spec fn is_prefix(p: Seq<char>, s: Seq<char>) -> bool {
    p.len() <= s.len() && forall|j: int| 0 <= j < p.len() ==> s[j] == p[j]
}

/// A request key is superseded by a new request with base key `base` when it
/// equals `base` or starts with `base` followed by `#`.
pub open spec fn supersedes(base: Seq<char>, key: Seq<char>) -> bool {
    key == base || is_prefix(base + seq!['#'], key)
}

/// Registering under a base key supersedes every earlier key made from that
/// same base key.
pub proof fn lemma_key_superseded_by_same_base(base: Seq<char>, seq: u64)
    ensures
        supersedes(base, key_of(base, seq)),
{
    assert(is_prefix(base + seq!['#'], base + seq!['#'] + spec_decimal(seq as nat)));
}

/// Decides whether `p` is a prefix of `s`.
pub fn str_starts_with(s: &str, p: &str) -> (r: bool)
    ensures
        r == is_prefix(p@, s@),
{
    let sl = s.unicode_len();
    let pl = p.unicode_len();
    if pl > sl {
        return false;
    }
    let mut i: usize = 0;
    while i < pl
        invariant
            i <= pl,
            pl == p@.len(),
            pl <= s@.len(),
            forall|j: int| 0 <= j < i ==> s@[j] == p@[j],
        decreases pl - i,
    {
        if s.get_char(i) != p.get_char(i) {
            return false;
        }
        i = i + 1;
    }
    true
}

/// Writes `n` in decimal.
pub fn u64_to_decimal(n: u64) -> (r: String)
    ensures
        r@ == spec_decimal(n as nat),
    decreases n,
{
    let d = n % 10;
    let q = n / 10;
    let digit: &str = if d == 0 {
        "0"
    } else if d == 1 {
        "1"
    } else if d == 2 {
        "2"
    } else if d == 3 {
        "3"
    } else if d == 4 {
        "4"
    } else if d == 5 {
        "5"
    } else if d == 6 {
        "6"
    } else if d == 7 {
        "7"
    } else if d == 8 {
        "8"
    } else {
        "9"
    };
    proof {
        reveal_strlit("0");
        reveal_strlit("1");
        reveal_strlit("2");
        reveal_strlit("3");
        reveal_strlit("4");
        reveal_strlit("5");
        reveal_strlit("6");
        reveal_strlit("7");
        reveal_strlit("8");
        reveal_strlit("9");
        assert(digit@ =~= seq![digit_char((d as nat))]);
    }
    if q == 0 {
        digit.to_owned()
    } else {
        let mut s = u64_to_decimal(q);
        s.append(digit);
        proof {
            assert(s@ =~= spec_decimal(n as nat));
        }
        s
    }
}

/// A cooperative cancellation flag.
///
/// The flag only ever moves from "not cancelled" to "cancelled"; it is never
/// reset. Long-running computations receive a flag and poll it at bounded
/// intervals (once per image row), aborting with
/// [`crate::error::AnalysisError::Cancelled`] when it is set.
pub struct CancelFlag {
    pub cancelled: bool,
}

impl CancelFlag {
    /// A fresh, not-yet-cancelled flag.
    pub fn new() -> (r: CancelFlag)
        ensures
            !r.cancelled,
    {
        CancelFlag { cancelled: false }
    }

    /// Marks the flag cancelled. The transition is one-way.
    pub fn set(&mut self)
        ensures
            final(self).cancelled,
    {
        self.cancelled = true;
    }

    /// Polls the flag.
    pub fn is_set(&self) -> (r: bool)
        ensures
            r == self.cancelled,
    {
        self.cancelled
    }
}

/// Identifies one specific in-flight execution: the coalescing base key plus
/// a process-wide sequence number. Its printable form is
/// `key_of(base, seq)`: the base key, `#`, and the sequence number.
#[derive(Clone)]
pub struct RequestId {
    pub base: String,
    pub seq: u64,
}

/// One registry entry: the identity it was registered under and its
/// cancellation state.
pub struct RegistryEntry {
    pub base: String,
    pub seq: u64,
    pub cancelled: bool,
}

/// The index of the entry registered under `(base, seq)`, or -1 when there
/// is none.
pub open spec fn spec_find(entries: Seq<RegistryEntry>, base: Seq<char>, seq: u64) -> int
    decreases entries.len(),
{
    if entries.len() == 0 {
        -1
    } else if entries[0].base@ == base && entries[0].seq == seq {
        0
    } else {
        let r = spec_find(entries.drop_first(), base, seq);
        if r == -1 {
            -1
        } else {
            r + 1
        }
    }
}

pub proof fn lemma_spec_find_correct(entries: Seq<RegistryEntry>, base: Seq<char>, seq: u64)
    ensures
        spec_find(entries, base, seq) == -1 ==> forall|i: int|
            0 <= i < entries.len() ==> !(entries[i].base@ == base && entries[i].seq == seq),
        spec_find(entries, base, seq) != -1 ==> {
            let ix = spec_find(entries, base, seq);
            &&& 0 <= ix < entries.len()
            &&& entries[ix].base@ == base
            &&& entries[ix].seq == seq
        },
    decreases entries.len(),
{
    if entries.len() > 0 {
        lemma_spec_find_correct(entries.drop_first(), base, seq);
        assert forall|i: int| 1 <= i < entries.len() implies entries[i] == entries.drop_first()[i
            - 1] by {}
    }
}

/// Whether the execution identified by `(base, seq)` stands cancelled: a
/// removed entry counts as cancelled.
pub open spec fn spec_cancelled(entries: Seq<RegistryEntry>, base: Seq<char>, seq: u64) -> bool {
    let ix = spec_find(entries, base, seq);
    if ix == -1 {
        true
    } else {
        entries[ix].cancelled
    }
}

/// How one `register` call changes the registry: the sequence counter
/// advances, every superseded entry is marked cancelled, a fresh entry is
/// appended, and the returned identity names it.
pub open spec fn register_step(
    pre: CancelRegistry,
    post: CancelRegistry,
    base: Seq<char>,
    id: RequestId,
) -> bool {
    &&& post.counter == pre.counter + 1
    &&& id.base@ == base
    &&& id.seq == pre.counter
    &&& post.entries@.len() == pre.entries@.len() + 1
    &&& forall|i: int|
        #![trigger post.entries@[i]]
        0 <= i < pre.entries@.len() ==> {
            let e_old = pre.entries@[i];
            let e_new = post.entries@[i];
            &&& e_new.base@ == e_old.base@
            &&& e_new.seq == e_old.seq
            &&& e_new.cancelled == (e_old.cancelled || supersedes(
                base,
                key_of(e_old.base@, e_old.seq),
            ))
        }
    &&& post.entries@.last().base@ == base
    &&& post.entries@.last().seq == pre.counter
    &&& !post.entries@.last().cancelled
}

/// Law: of two requests registered in turn under the same base key, the
/// earlier one stands cancelled as soon as the later one is registered,
/// while the later one's own entry is fresh and not cancelled; their
/// identities never coincide.
pub proof fn lemma_coalescing(
    s0: CancelRegistry,
    s1: CancelRegistry,
    s2: CancelRegistry,
    base: Seq<char>,
    id1: RequestId,
    id2: RequestId,
)
    requires
        s1.wf(),
        s2.wf(),
        register_step(s0, s1, base, id1),
        register_step(s1, s2, base, id2),
    ensures
        spec_cancelled(s2.entries@, id1.base@, id1.seq),
        !spec_cancelled(s2.entries@, id2.base@, id2.seq),
        id1.seq != id2.seq,
{
    let n0 = s0.entries@.len() as int;
    let n1 = s1.entries@.len() as int;
    assert(s1.entries@[n0] == s1.entries@.last());
    assert(s2.entries@[n1] == s2.entries@.last());
    assert(s2.entries@[n0].cancelled) by {
        lemma_key_superseded_by_same_base(base, id1.seq);
        assert(s1.entries@[n0].base@ == base && s1.entries@[n0].seq == id1.seq);
    }
    lemma_spec_find_correct(s2.entries@, id1.base@, id1.seq);
    let ix1 = spec_find(s2.entries@, id1.base@, id1.seq);
    assert(ix1 != -1) by {
        if ix1 == -1 {
            assert(!(s2.entries@[n0].base@ == id1.base@ && s2.entries@[n0].seq == id1.seq));
        }
    }
    assert(ix1 == n0) by {
        if ix1 != n0 {
            assert(s2.entries@[ix1].seq == s2.entries@[n0].seq);
        }
    }
    lemma_spec_find_correct(s2.entries@, id2.base@, id2.seq);
    let ix2 = spec_find(s2.entries@, id2.base@, id2.seq);
    assert(ix2 != -1) by {
        if ix2 == -1 {
            assert(!(s2.entries@[n1].base@ == id2.base@ && s2.entries@[n1].seq == id2.seq));
        }
    }
    assert(ix2 == n1) by {
        if ix2 != n1 {
            assert(s2.entries@[ix2].seq == s2.entries@[n1].seq);
        }
    }
}

/// A just-registered identity names the last entry, and that entry is not
/// cancelled: registering never supersedes the request it creates.
pub proof fn lemma_fresh_entry_state(
    pre: CancelRegistry,
    post: CancelRegistry,
    base: Seq<char>,
    id: RequestId,
)
    requires
        post.wf(),
        register_step(pre, post, base, id),
    ensures
        spec_find(post.entries@, id.base@, id.seq) == post.entries@.len() - 1,
        !spec_cancelled(post.entries@, id.base@, id.seq),
{
    let n = post.entries@.len() - 1;
    assert(post.entries@[n] == post.entries@.last());
    lemma_spec_find_correct(post.entries@, id.base@, id.seq);
    let ix = spec_find(post.entries@, id.base@, id.seq);
    if ix == -1 {
        assert(!(post.entries@[n].base@ == id.base@ && post.entries@[n].seq == id.seq));
    }
    if ix != n {
        assert(post.entries@[ix].seq == post.entries@[n].seq);
    }
}

/// Registering and then unregistering the same fresh identity leaves every
/// earlier entry in place, with exactly the superseded ones cancelled.
pub proof fn lemma_register_unregister_net(
    pre: CancelRegistry,
    mid: CancelRegistry,
    post_entries: Seq<RegistryEntry>,
    base: Seq<char>,
    id: RequestId,
)
    requires
        mid.wf(),
        register_step(pre, mid, base, id),
        post_entries == mid.entries@.remove(spec_find(mid.entries@, id.base@, id.seq)),
    ensures
        post_entries.len() == pre.entries@.len(),
        forall|i: int|
            #![trigger post_entries[i]]
            0 <= i < pre.entries@.len() ==> {
                let e_old = pre.entries@[i];
                let e_new = post_entries[i];
                &&& e_new.base@ == e_old.base@
                &&& e_new.seq == e_old.seq
                &&& e_new.cancelled == (e_old.cancelled || supersedes(
                    base,
                    key_of(e_old.base@, e_old.seq),
                ))
            },
{
    lemma_fresh_entry_state(pre, mid, base, id);
    let n = mid.entries@.len() - 1;
    let lo = mid.entries@.subrange(0, n);
    let hi = mid.entries@.subrange(n + 1, mid.entries@.len() as int);
    assert(post_entries =~= lo + hi);
    assert forall|i: int| 0 <= i < pre.entries@.len() implies #[trigger] post_entries[i]
        == mid.entries@[i] by {
        assert(post_entries[i] == lo[i]);
    }
}

/// The process-wide table that coalesces logically-duplicate requests and
/// lets newer work preempt older work.
///
/// Registering a request first marks every entry whose key is superseded by
/// the new base key as cancelled, then inserts a fresh entry under a unique
/// identity; the whole step is one operation on the single owner of the
/// table. Sequence numbers strictly increase over the registry's lifetime
/// and are never reused.
pub struct CancelRegistry {
    pub entries: Vec<RegistryEntry>,
    pub counter: u64,
}

impl CancelRegistry {
    /// Every entry was created before the counter's current value, and no
    /// two entries share a sequence number.
    pub open spec fn wf(self) -> bool {
        &&& forall|i: int| 0 <= i < self.entries@.len() ==> self.entries@[i].seq < self.counter
        &&& forall|i: int, j: int|
            0 <= i < j < self.entries@.len() ==> self.entries@[i].seq != self.entries@[j].seq
    }

    /// An empty registry.
    pub fn new() -> (r: CancelRegistry)
        ensures
            r.wf(),
            r.entries@.len() == 0,
            r.counter == 0,
    {
        CancelRegistry { entries: Vec::new(), counter: 0 }
    }

    /// Registers a new request under `base`, atomically superseding all
    /// earlier requests made from the same base key: their entries are
    /// marked cancelled before the fresh, not-cancelled entry is inserted.
    /// Returns the new request's unique identity.
    pub fn register(&mut self, base: &str) -> (id: RequestId)
        requires
            old(self).wf(),
            old(self).counter < u64::MAX,
        ensures
            final(self).wf(),
            register_step(*old(self), *final(self), base@, id),
            forall|i: int|
                0 <= i < old(self).entries@.len() && old(self).entries@[i].base@ == base@
                    ==> final(self).entries@[i].cancelled,
    {
        let mut i: usize = 0;
        while i < self.entries.len()
            invariant
                self.counter == old(self).counter,
                self.entries@.len() == old(self).entries@.len(),
                forall|j: int|
                    i <= j < self.entries@.len() ==> self.entries@[j] == old(self).entries@[j],
                forall|j: int|
                    #![trigger self.entries@[j]]
                    0 <= j < i ==> {
                        let e_old = old(self).entries@[j];
                        let e_new = self.entries@[j];
                        &&& e_new.base@ == e_old.base@
                        &&& e_new.seq == e_old.seq
                        &&& e_new.cancelled == (e_old.cancelled || supersedes(
                            base@,
                            key_of(e_old.base@, e_old.seq),
                        ))
                    },
            decreases self.entries@.len() - i,
        {
            let superseded = entry_superseded(&self.entries[i], base);
            if superseded {
                let nb = self.entries[i].base.clone();
                let ns = self.entries[i].seq;
                self.entries.set(i, RegistryEntry { base: nb, seq: ns, cancelled: true });
            }
            i = i + 1;
        }
        let seqno = self.counter;
        self.counter = self.counter + 1;
        self.entries.push(RegistryEntry { base: base.to_owned(), seq: seqno, cancelled: false });
        proof {
            assert forall|k: int|
                0 <= k < old(self).entries@.len()
                    && old(self).entries@[k].base@ == base@ implies self.entries@[k].cancelled by {
                lemma_key_superseded_by_same_base(base@, old(self).entries@[k].seq);
            }
        }
        RequestId { base: base.to_owned(), seq: seqno }
    }

    /// Removes the entry registered under `id`, if any. Removing an already
    /// removed identity is a no-op.
    pub fn unregister(&mut self, id: &RequestId)
        requires
            old(self).wf(),
        ensures
            final(self).wf(),
            final(self).counter == old(self).counter,
            spec_find(old(self).entries@, id.base@, id.seq) == -1 ==> final(self).entries@ == old(
                self,
            ).entries@,
            spec_find(old(self).entries@, id.base@, id.seq) != -1 ==> final(self).entries@ == old(
                self,
            ).entries@.remove(spec_find(old(self).entries@, id.base@, id.seq)),
    {
        let mut i: usize = 0;
        while i < self.entries.len()
            invariant
                *self == *old(self),
                old(self).wf(),
                forall|j: int|
                    0 <= j < i ==> !(self.entries@[j].base@ == id.base@ && self.entries@[j].seq
                        == id.seq),
                i <= self.entries@.len(),
            decreases self.entries@.len() - i,
        {
            if self.entries[i].seq == id.seq && self.entries[i].base == id.base {
                proof {
                    lemma_spec_find_at(self.entries@, id.base@, id.seq, i as int);
                }
                self.entries.remove(i);
                proof {
                    let pre = old(self).entries@;
                    let lo = pre.subrange(0, i as int);
                    let hi = pre.subrange(i + 1, pre.len() as int);
                    assert(self.entries@ == lo + hi);
                    assert forall|a: int|
                        0 <= a < self.entries@.len() implies #[trigger] self.entries@[a] == (if a
                            < i {
                        pre[a]
                    } else {
                        pre[a + 1]
                    }) by {
                        if a < i {
                            assert(self.entries@[a] == lo[a]);
                            assert(lo[a] == pre[a]);
                        } else {
                            assert(self.entries@[a] == hi[a - i]);
                            assert(hi[a - i] == pre[a + 1]);
                        }
                    }
                    assert forall|a: int|
                        0 <= a < self.entries@.len() implies #[trigger] self.entries@[a].seq
                        < self.counter by {
                        if a < i {
                            assert(self.entries@[a] == pre[a]);
                        } else {
                            assert(self.entries@[a] == pre[a + 1]);
                        }
                    }
                    assert forall|a: int, b: int|
                        #![trigger self.entries@[a].seq, self.entries@[b].seq]
                        0 <= a < b < self.entries@.len() implies self.entries@[a].seq
                        != self.entries@[b].seq by {
                        let a2: int = if a < i {
                            a
                        } else {
                            a + 1
                        };
                        let b2: int = if b < i {
                            b
                        } else {
                            b + 1
                        };
                        assert(self.entries@[a] == pre[a2]);
                        assert(self.entries@[b] == pre[b2]);
                        assert(pre[a2].seq != pre[b2].seq);
                    }
                }
                return ;
            }
            i = i + 1;
        }
        proof {
            lemma_spec_find_none(self.entries@, id.base@, id.seq);
        }
    }

    /// Reports whether the execution identified by `id` stands cancelled; an
    /// identity whose entry was removed counts as cancelled.
    pub fn is_cancelled(&self, id: &RequestId) -> (r: bool)
        ensures
            r == spec_cancelled(self.entries@, id.base@, id.seq),
    {
        let mut i: usize = 0;
        while i < self.entries.len()
            invariant
                forall|j: int|
                    0 <= j < i ==> !(self.entries@[j].base@ == id.base@ && self.entries@[j].seq
                        == id.seq),
                i <= self.entries@.len(),
            decreases self.entries@.len() - i,
        {
            if self.entries[i].seq == id.seq && self.entries[i].base == id.base {
                proof {
                    lemma_spec_find_at(self.entries@, id.base@, id.seq, i as int);
                }
                return self.entries[i].cancelled;
            }
            i = i + 1;
        }
        proof {
            lemma_spec_find_none(self.entries@, id.base@, id.seq);
        }
        true
    }
}

/// When the first match over `(base, seq)` sits at index `i`, `spec_find`
/// returns `i`.
proof fn lemma_spec_find_at(entries: Seq<RegistryEntry>, base: Seq<char>, seq: u64, i: int)
    requires
        0 <= i < entries.len(),
        entries[i].base@ == base && entries[i].seq == seq,
        forall|j: int| 0 <= j < i ==> !(entries[j].base@ == base && entries[j].seq == seq),
    ensures
        spec_find(entries, base, seq) == i,
    decreases i,
{
    if i > 0 {
        assert forall|j: int|
            0 <= j < i - 1 implies !(entries.drop_first()[j].base@ == base
            && entries.drop_first()[j].seq == seq) by {
            assert(entries.drop_first()[j] == entries[j + 1]);
        }
        assert(entries.drop_first()[i - 1] == entries[i]);
        lemma_spec_find_at(entries.drop_first(), base, seq, i - 1);
    }
}

/// When no entry matches `(base, seq)`, `spec_find` returns -1.
proof fn lemma_spec_find_none(entries: Seq<RegistryEntry>, base: Seq<char>, seq: u64)
    requires
        forall|j: int|
            0 <= j < entries.len() ==> !(entries[j].base@ == base && entries[j].seq == seq),
    ensures
        spec_find(entries, base, seq) == -1,
    decreases entries.len(),
{
    if entries.len() > 0 {
        assert forall|j: int|
            0 <= j < entries.drop_first().len() implies !(entries.drop_first()[j].base@ == base
            && entries.drop_first()[j].seq == seq) by {
            assert(entries.drop_first()[j] == entries[j + 1]);
        }
        lemma_spec_find_none(entries.drop_first(), base, seq);
    }
}

/// Decides whether an existing entry's key is superseded by a new request
/// with base key `base`.
fn entry_superseded(e: &RegistryEntry, base: &str) -> (r: bool)
    ensures
        r == supersedes(base@, key_of(e.base@, e.seq)),
{
    let key = request_key_string(e.base.as_str(), e.seq);
    let base_string = base.to_owned();
    if key == base_string {
        return true;
    }
    let mut prefix = base.to_owned();
    prefix.append("#");
    proof {
        reveal_strlit("#");
        assert(prefix@ =~= base@ + seq!['#']);
    }
    str_starts_with(key.as_str(), prefix.as_str())
}

/// Builds the printable unique key of a request: `base`, `#`, and the
/// sequence number in decimal.
pub fn request_key_string(base: &str, seq: u64) -> (r: String)
    ensures
        r@ == key_of(base@, seq),
{
    let mut s = base.to_owned();
    s.append("#");
    let d = u64_to_decimal(seq);
    s.append(d.as_str());
    proof {
        reveal_strlit("#");
        assert(s@ =~= key_of(base@, seq));
    }
    s
}

} // verus!
