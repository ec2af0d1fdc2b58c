//! The core of a line-broadcast chat server: the registry of live
//! connections, the decisions a connection's reader makes on each read, and
//! the sweep that writes one message to every registered connection and drops
//! those whose write failed.
use vstd::prelude::*;
use vstd::string::StringExecFns;
use vstd::utf8::{decode_utf8, valid_utf8};

verus! {

/// Relies on `std::str::from_utf8`: it accepts exactly the valid UTF-8
/// sequences, and the text it returns is what those bytes encode.
#[verifier::external_body]
fn decode_text(bytes: &[u8]) -> (r: Option<String>)
    ensures
        r is Some <==> valid_utf8(bytes@),
        r matches Some(s) ==> s@ == decode_utf8(bytes@),
{
    match std::str::from_utf8(bytes) {
        Ok(s) => Some(s.to_string()),
        Err(_) => None,
    }
}

/// The announcement broadcast when `peer` joins.
pub fn connected_message(peer: &str) -> (r: String)
    ensures
        r@ == peer@ + " connected\n"@,
{
    let mut r = String::from_str(peer);
    r.append(" connected\n");
    r
}

/// The announcement broadcast when `peer` leaves.
pub fn disconnected_message(peer: &str) -> (r: String)
    ensures
        r@ == peer@ + " disconnected\n"@,
{
    let mut r = String::from_str(peer);
    r.append(" disconnected\n");
    r
}

/// A message that `peer` sent, as the other clients see it.
pub fn chat_message(peer: &str, text: &str) -> (r: String)
    ensures
        r@ == peer@ + ": "@ + text@,
{
    let mut r = String::from_str(peer);
    r.append(": ");
    r.append(text);
    r
}

/// What one read from a client's socket gave.
pub enum ReadEvent {
    /// The read failed.
    Failed,
    /// The read returned these bytes; none means the peer closed.
    Received(Vec<u8>),
}

/// What a reader does next.
pub enum ReaderAction {
    /// Send this message to the broadcaster and read again.
    Forward(String),
    /// Send this announcement to the broadcaster and stop reading.
    Finish(String),
}

/// The decision a connection's reader takes on one read from `peer`: a
/// failed read, a closed connection or bytes that are not UTF-8 end the
/// connection with its departure announcement; any other read is forwarded
/// whole, as one message.
pub fn on_read(peer: &str, event: ReadEvent) -> (r: ReaderAction)
    ensures
        match event {
            ReadEvent::Received(b) => if b@.len() > 0 && valid_utf8(b@) {
                r == ReaderAction::Forward(r->Forward_0) && r->Forward_0@ == peer@ + ": "@
                    + decode_utf8(b@)
            } else {
                r is Finish && r->Finish_0@ == peer@ + " disconnected\n"@
            },
            ReadEvent::Failed => r is Finish && r->Finish_0@ == peer@ + " disconnected\n"@,
        },
{
    match event {
        ReadEvent::Failed => ReaderAction::Finish(disconnected_message(peer)),
        ReadEvent::Received(bytes) => {
            if bytes.len() == 0 {
                return ReaderAction::Finish(disconnected_message(peer));
            }
            match decode_text(bytes.as_slice()) {
                Some(text) => ReaderAction::Forward(chat_message(peer, text.as_str())),
                None => ReaderAction::Finish(disconnected_message(peer)),
            }
        },
    }
}

/// The identifiers of a sequence of entries.
pub open spec fn ids_of<W>(entries: Seq<(usize, W)>) -> Seq<usize> {
    entries.map_values(|e: (usize, W)| e.0)
}

/// The entries whose write succeeded, in their order.
pub open spec fn kept<W>(entries: Seq<(usize, W)>, ok: Seq<bool>) -> Seq<(usize, W)>
    decreases entries.len(),
{
    if entries.len() == 0 {
        Seq::empty()
    } else {
        let rest = kept(entries.drop_last(), ok);
        if ok[entries.len() - 1] {
            rest.push(entries.last())
        } else {
            rest
        }
    }
}

/// The identifiers of the entries whose write failed, in their order.
pub open spec fn failed_ids<W>(entries: Seq<(usize, W)>, ok: Seq<bool>) -> Seq<usize>
    decreases entries.len(),
{
    if entries.len() == 0 {
        Seq::empty()
    } else {
        let rest = failed_ids(entries.drop_last(), ok);
        if ok[entries.len() - 1] {
            rest
        } else {
            rest.push(entries.last().0)
        }
    }
}

/// No identifier occurs twice.
pub open spec fn unique_ids<W>(entries: Seq<(usize, W)>) -> bool {
    forall|i: int, j: int| 0 <= i < j < entries.len() ==> entries[i].0 != entries[j].0
}

/// Every entry kept is one of the entries.
pub proof fn lemma_kept_within<W>(entries: Seq<(usize, W)>, ok: Seq<bool>)
    ensures
        forall|k: int| 0 <= k < kept(entries, ok).len() ==> exists|i: int|
            0 <= i < entries.len() && entries[i] == #[trigger] kept(entries, ok)[k],
    decreases entries.len(),
{
    if entries.len() == 0 {
        assert(kept(entries, ok).len() == 0);
    } else {
        lemma_kept_within(entries.drop_last(), ok);
        let rest = kept(entries.drop_last(), ok);
        assert forall|k: int| 0 <= k < kept(entries, ok).len() implies exists|i: int|
            0 <= i < entries.len() && entries[i] == #[trigger] kept(entries, ok)[k] by {
            if k < rest.len() {
                let i = choose|i: int| 0 <= i < entries.drop_last().len()
                    && entries.drop_last()[i] == rest[k];
                assert(entries[i] == kept(entries, ok)[k]);
            } else {
                assert(entries[entries.len() - 1] == kept(entries, ok)[k]);
            }
        }
    }
}

/// Keeping some entries of a registry without duplicate identifiers leaves
/// none.
pub proof fn lemma_kept_unique<W>(entries: Seq<(usize, W)>, ok: Seq<bool>)
    requires
        unique_ids(entries),
    ensures
        unique_ids(kept(entries, ok)),
    decreases entries.len(),
{
    if entries.len() > 0 {
        let init = entries.drop_last();
        lemma_kept_unique(init, ok);
        lemma_kept_within(init, ok);
        let rest = kept(init, ok);
        if ok[entries.len() - 1] {
            let s = kept(entries, ok);
            assert forall|i: int, j: int| 0 <= i < j < s.len() implies s[i].0 != s[j].0 by {
                if j == s.len() - 1 {
                    let m = choose|m: int| 0 <= m < init.len() && init[m] == #[trigger] rest[i];
                    assert(entries[m] == rest[i]);
                } else {
                    assert(s[i] == rest[i] && s[j] == rest[j]);
                }
            }
        }
    }
}

/// An entry whose write succeeded stays.
pub proof fn lemma_kept_contains<W>(entries: Seq<(usize, W)>, ok: Seq<bool>, i: int)
    requires
        0 <= i < entries.len(),
        ok[i],
    ensures
        kept(entries, ok).contains(entries[i]),
    decreases entries.len(),
{
    if i < entries.len() - 1 {
        lemma_kept_contains(entries.drop_last(), ok, i);
        assert(entries.drop_last()[i] == entries[i]);
        let rest = kept(entries.drop_last(), ok);
        let k = choose|k: int| 0 <= k < rest.len() && rest[k] == entries[i];
        if ok[entries.len() - 1] {
            assert(kept(entries, ok)[k] == entries[i]);
        }
    } else {
        assert(kept(entries, ok).last() == entries[i]);
    }
}

/// The shared table of live, writable connections: each identifier with the
/// handle its messages are written to, in the order they were registered.
pub struct Registry<W> {
    entries: Vec<(usize, W)>,
}

impl<W> Registry<W> {
    /// The entries, in registration order.
    pub closed spec fn entries(&self) -> Seq<(usize, W)> {
        self.entries@
    }

    /// The registered identifiers, in registration order.
    pub open spec fn ids(&self) -> Seq<usize> {
        ids_of(self.entries())
    }

    /// The set of registered identifiers.
    pub open spec fn id_set(&self) -> Set<usize> {
        self.ids().to_set()
    }

    pub open spec fn wf(&self) -> bool {
        unique_ids(self.entries())
    }

    /// An empty registry.
    pub fn new() -> (r: Self)
        ensures
            r.wf(),
            r.entries() == Seq::<(usize, W)>::empty(),
    {
        Registry { entries: Vec::new() }
    }

    /// How many connections are registered.
    pub fn len(&self) -> (r: usize)
        ensures
            r == self.entries().len(),
    {
        self.entries.len()
    }

    /// Whether `id` is registered.
    pub fn contains(&self, id: usize) -> (r: bool)
        ensures
            r == self.ids().contains(id),
    {
        match self.position(id) {
            Some(i) => {
                assert(self.ids()[i as int] == id);
                true
            },
            None => false,
        }
    }

    /// Where `id` stands, if it is registered.
    fn position(&self, id: usize) -> (r: Option<usize>)
        ensures
            match r {
                Some(i) => i < self.entries().len() && self.entries()[i as int].0 == id,
                None => !self.ids().contains(id),
            },
    {
        let mut i: usize = 0;
        while i < self.entries.len()
            invariant
                i <= self.entries@.len(),
                forall|k: int| 0 <= k < i ==> self.entries@[k].0 != id,
            decreases self.entries@.len() - i,
        {
            if self.entries[i].0 == id {
                return Some(i);
            }
            i = i + 1;
        }
        proof {
            if self.ids().contains(id) {
                let k = choose|k: int| 0 <= k < self.ids().len() && self.ids()[k] == id;
                assert(self.entries@[k].0 == id);
            }
        }
        None
    }

    /// The identifier of the entry at `i`.
    pub fn id_at(&self, i: usize) -> (r: usize)
        requires
            i < self.entries().len(),
        ensures
            r == self.entries()[i as int].0,
    {
        self.entries[i].0
    }

    /// The handle of the entry at `i`.
    pub fn writer_at(&self, i: usize) -> (r: &W)
        requires
            i < self.entries().len(),
        ensures
            *r == self.entries()[i as int].1,
    {
        &self.entries[i].1
    }

    /// Registers `writer` under a fresh identifier.
    pub fn insert(&mut self, id: usize, writer: W)
        requires
            old(self).wf(),
            !old(self).ids().contains(id),
        ensures
            final(self).wf(),
            final(self).entries() == old(self).entries().push((id, writer)),
            final(self).id_set() == old(self).id_set().insert(id),
    {
        proof {
            assert forall|k: int| 0 <= k < self.entries@.len() implies self.entries@[k].0 != id by {
                assert(self.ids()[k] == self.entries@[k].0);
            }
        }
        self.entries.push((id, writer));
        proof {
            assert(self.ids() =~= old(self).ids().push(id));
            let n = old(self).ids().len();
            assert forall|x: usize| self.id_set().contains(x) <==> old(self).id_set().insert(
                id,
            ).contains(x) by {
                if self.id_set().contains(x) && x != id {
                    let k = choose|k: int| 0 <= k < self.ids().len() && self.ids()[k] == x;
                    assert(k < n);
                    assert(old(self).ids()[k] == x);
                }
                if old(self).id_set().contains(x) {
                    let k = choose|k: int| 0 <= k < n && old(self).ids()[k] == x;
                    assert(self.ids()[k] == x);
                }
                if x == id {
                    assert(self.ids()[n as int] == x);
                }
            }
            assert(self.id_set() =~= old(self).id_set().insert(id));
        }
    }

    /// Drops the entry of `id`; nothing happens if there is none.
    pub fn remove(&mut self, id: usize)
        requires
            old(self).wf(),
        ensures
            final(self).wf(),
            !old(self).ids().contains(id) ==> final(self).entries() == old(self).entries(),
            old(self).ids().contains(id) ==> exists|i: int|
                0 <= i < old(self).entries().len() && old(self).entries()[i].0 == id
                    && final(self).entries() == old(self).entries().remove(i),
            final(self).id_set() == old(self).id_set().remove(id),
    {
        match self.position(id) {
            None => {
                proof {
                    assert(self.id_set() =~= old(self).id_set().remove(id));
                }
            },
            Some(i) => {
                assert(old(self).ids()[i as int] == id);
                let _ = self.entries.remove(i);
                proof {
                    let o = old(self).entries@;
                    assert forall|x: usize| self.id_set().contains(x) <==> old(
                        self,
                    ).id_set().remove(id).contains(x) by {
                        if self.id_set().contains(x) {
                            let k = choose|k: int| 0 <= k < self.ids().len() && self.ids()[k] == x;
                            let m = if k < i { k } else { k + 1 };
                            assert(o[m].0 == x);
                            assert(old(self).ids()[m] == x);
                        }
                        if old(self).id_set().remove(id).contains(x) {
                            let m = choose|m: int| 0 <= m < old(self).ids().len() && old(self).ids()[m] == x;
                            assert(m != i);
                            let k = if m < i { m } else { m - 1 };
                            assert(self.ids()[k] == x);
                        }
                    }
                    assert(self.id_set() =~= old(self).id_set().remove(id));
                }
            },
        }
    }

    /// Ends one broadcast: `ok[i]` tells whether the write to the entry at `i`
    /// succeeded. Every entry whose write failed is dropped, the others stay in
    /// their order, and the identifiers dropped are returned in order.
    pub fn sweep(&mut self, ok: &Vec<bool>) -> (failed: Vec<usize>)
        requires
            old(self).wf(),
            ok@.len() == old(self).entries().len(),
        ensures
            final(self).wf(),
            final(self).entries() == kept(old(self).entries(), ok@),
            failed@ == failed_ids(old(self).entries(), ok@),
    {
        let mut rest: Vec<(usize, W)> = Vec::new();
        std::mem::swap(&mut rest, &mut self.entries);
        let ghost all = rest@;
        let mut failed: Vec<usize> = Vec::new();
        let mut i: usize = 0;
        while rest.len() > 0
            invariant
                all == old(self).entries(),
                ok@.len() == all.len(),
                i + rest@.len() == all.len(),
                rest@ == all.subrange(i as int, all.len() as int),
                self.entries@ == kept(all.subrange(0, i as int), ok@),
                failed@ == failed_ids(all.subrange(0, i as int), ok@),
            decreases rest@.len(),
        {
            let entry = rest.remove(0);
            assert(i < ok.len());
            proof {
                assert(all.subrange(0, i + 1).drop_last() =~= all.subrange(0, i as int));
                assert(entry == all[i as int]);
            }
            if ok[i] {
                self.entries.push(entry);
            } else {
                failed.push(entry.0);
            }
            i = i + 1;
            proof {
                assert(rest@ =~= all.subrange(i as int, all.len() as int));
            }
        }
        proof {
            assert(all.subrange(0, i as int) =~= all);
            lemma_kept_unique(all, ok@);
        }
        failed
    }
}

/// Every connection whose write succeeded is still registered after the
/// sweep, whichever other writes of the same broadcast failed.
pub proof fn lemma_failure_is_contained<W>(before: Registry<W>, after: Registry<W>, ok: Seq<bool>, i: int)
    requires
        before.wf(),
        ok.len() == before.entries().len(),
        after.entries() == kept(before.entries(), ok),
        0 <= i < ok.len(),
        ok[i],
    ensures
        after.entries().contains(before.entries()[i]),
{
    lemma_kept_contains(before.entries(), ok, i);
}

/// One change made to a registry: a connection registered or dropped.
pub enum RegistryOp {
    Insert(usize),
    Remove(usize),
}

/// The registered identifiers before and after `op`, as `insert` and `remove`
/// state them.
pub open spec fn op_step(before: Set<usize>, after: Set<usize>, op: RegistryOp) -> bool {
    match op {
        RegistryOp::Insert(id) => after == before.insert(id),
        RegistryOp::Remove(id) => after == before.remove(id),
    }
}

/// `id` was inserted by one of the first `n` operations and not removed by a
/// later one among them.
pub open spec fn live_after(ops: Seq<RegistryOp>, n: int, id: usize) -> bool {
    exists|i: int|
        0 <= i < n && #[trigger] ops[i] == RegistryOp::Insert(id) && forall|j: int|
            i < j < n ==> #[trigger] ops[j] != RegistryOp::Remove(id)
}

/// Whatever connections were registered and dropped, starting from an empty
/// registry, the registered identifiers are exactly those inserted and not
/// removed since; dropping one that is absent changes nothing.
pub proof fn lemma_registry_tracks_history<W>(regs: Seq<Registry<W>>, ops: Seq<RegistryOp>)
    requires
        regs.len() == ops.len() + 1,
        regs[0].entries().len() == 0,
        forall|k: int| 0 <= k < ops.len() ==> op_step(#[trigger] regs[k].id_set(), regs[k + 1].id_set(), ops[k]),
    ensures
        forall|id: usize| regs.last().id_set().contains(id) <==> live_after(ops, ops.len() as int, id),
    decreases ops.len(),
{
    if ops.len() == 0 {
        assert forall|id: usize| !regs[0].id_set().contains(id) by {
            if regs[0].id_set().contains(id) {
                let k = choose|k: int| 0 <= k < regs[0].ids().len() && regs[0].ids()[k] == id;
            }
        }
    } else {
        let n = ops.len() - 1;
        let pre_regs = regs.subrange(0, n + 1);
        let pre_ops = ops.subrange(0, n);
        assert forall|k: int| 0 <= k < pre_ops.len() implies op_step(
            #[trigger] pre_regs[k].id_set(),
            pre_regs[k + 1].id_set(),
            pre_ops[k],
        ) by {
            assert(op_step(regs[k].id_set(), regs[k + 1].id_set(), ops[k]));
        }
        lemma_registry_tracks_history(pre_regs, pre_ops);
        assert(op_step(regs[n].id_set(), regs[n + 1].id_set(), ops[n]));
        assert forall|id: usize| regs.last().id_set().contains(id) <==> live_after(ops, n + 1, id) by {
            let was = live_after(pre_ops, n, id);
            assert(pre_regs.last() == regs[n]);
            assert(regs[n].id_set().contains(id) == was);
            if was {
                let i = choose|i: int| 0 <= i < n && #[trigger] pre_ops[i] == RegistryOp::Insert(id)
                    && forall|j: int| i < j < n ==> #[trigger] pre_ops[j] != RegistryOp::Remove(id);
                assert(ops[i] == RegistryOp::Insert(id));
                if ops[n] != RegistryOp::Remove(id) {
                    assert forall|j: int| i < j < n + 1 implies #[trigger] ops[j] != RegistryOp::Remove(id) by {
                        if j < n {
                            assert(pre_ops[j] == ops[j]);
                        }
                    }
                }
            }
            if live_after(ops, n + 1, id) {
                let i = choose|i: int| 0 <= i < n + 1 && #[trigger] ops[i] == RegistryOp::Insert(id)
                    && forall|j: int| i < j < n + 1 ==> #[trigger] ops[j] != RegistryOp::Remove(id);
                if i < n {
                    assert(pre_ops[i] == RegistryOp::Insert(id));
                    assert forall|j: int| i < j < n implies #[trigger] pre_ops[j] != RegistryOp::Remove(id) by {
                        assert(pre_ops[j] == ops[j]);
                    }
                    assert(was);
                }
            }
            if ops[n] == RegistryOp::Insert(id) {
                assert(live_after(ops, n + 1, id));
            }
            if !was && ops[n] != RegistryOp::Insert(id) && live_after(ops, n + 1, id) {
                let i = choose|i: int| 0 <= i < n + 1 && #[trigger] ops[i] == RegistryOp::Insert(id)
                    && forall|j: int| i < j < n + 1 ==> #[trigger] ops[j] != RegistryOp::Remove(id);
                assert(i < n);
            }
        }
    }
}

/// Once a connection is dropped, the next broadcast neither writes to it nor
/// reports it as failed, and dropping it again changes nothing.
pub proof fn lemma_removed_not_written<W>(removed: Registry<W>, id: usize, again: Registry<W>, ok: Seq<bool>)
    requires
        removed.wf(),
        !removed.id_set().contains(id),
        ok.len() == removed.entries().len(),
        !removed.ids().contains(id) ==> again.entries() == removed.entries(),
    ensures
        forall|i: int| 0 <= i < removed.entries().len() ==> removed.entries()[i].0 != id,
        !delivered_ids(removed.entries(), ok).contains(id),
        !failed_ids(removed.entries(), ok).contains(id),
        again.entries() == removed.entries(),
{
    assert forall|i: int| 0 <= i < removed.entries().len() implies removed.entries()[i].0 != id by {
        if removed.entries()[i].0 == id {
            assert(removed.ids()[i] == id);
        }
    }
    lemma_kept_within(removed.entries(), ok);
    if ids_of(kept(removed.entries(), ok)).contains(id) {
        let k = choose|k: int| 0 <= k < kept(removed.entries(), ok).len()
            && ids_of(kept(removed.entries(), ok))[k] == id;
        let i = choose|i: int| 0 <= i < removed.entries().len()
            && removed.entries()[i] == #[trigger] kept(removed.entries(), ok)[k];
    }
    if failed_ids(removed.entries(), ok).contains(id) {
        lemma_failed_within(removed.entries(), ok, id);
    }
}

/// A failed identifier belongs to one of the entries.
pub proof fn lemma_failed_within<W>(entries: Seq<(usize, W)>, ok: Seq<bool>, id: usize)
    requires
        failed_ids(entries, ok).contains(id),
    ensures
        exists|i: int| 0 <= i < entries.len() && entries[i].0 == id,
    decreases entries.len(),
{
    if entries.len() == 0 {
        assert(failed_ids(entries, ok).len() == 0);
    } else {
        let rest = failed_ids(entries.drop_last(), ok);
        if rest.contains(id) {
            lemma_failed_within(entries.drop_last(), ok, id);
            let i = choose|i: int| 0 <= i < entries.drop_last().len() && entries.drop_last()[i].0 == id;
            assert(entries[i].0 == id);
        } else {
            assert(entries[entries.len() - 1].0 == id);
        }
    }
}

/// The identifiers that received the message of a broadcast: those whose
/// write succeeded, as `sweep` keeps them.
pub open spec fn delivered_ids<W>(entries: Seq<(usize, W)>, ok: Seq<bool>) -> Seq<usize> {
    ids_of(kept(entries, ok))
}

/// What connection `id` received over a series of broadcasts, each given as
/// the identifiers it reached and its message, in the order they were
/// broadcast.
pub open spec fn received(rounds: Seq<(Seq<usize>, Seq<char>)>, id: usize) -> Seq<Seq<char>>
    decreases rounds.len(),
{
    if rounds.len() == 0 {
        Seq::empty()
    } else {
        let earlier = received(rounds.drop_last(), id);
        if rounds.last().0.contains(id) {
            earlier.push(rounds.last().1)
        } else {
            earlier
        }
    }
}

proof fn lemma_received_grows(rounds: Seq<(Seq<usize>, Seq<char>)>, id: usize, n: int)
    requires
        0 <= n <= rounds.len(),
    ensures
        received(rounds.subrange(0, n), id).len() <= received(rounds, id).len(),
        forall|a: int| 0 <= a < received(rounds.subrange(0, n), id).len() ==> #[trigger] received(
            rounds.subrange(0, n),
            id,
        )[a] == received(rounds, id)[a],
    decreases rounds.len() - n,
{
    if n < rounds.len() {
        lemma_received_grows(rounds, id, n + 1);
        let (short, long) = (rounds.subrange(0, n), rounds.subrange(0, n + 1));
        assert(long.drop_last() =~= short);
        assert forall|a: int| 0 <= a < received(short, id).len() implies #[trigger] received(short, id)[a]
            == received(rounds, id)[a] by {
            assert(received(long, id)[a] == received(short, id)[a]);
        }
    } else {
        assert(rounds.subrange(0, n) =~= rounds);
    }
}

/// A connection reached by broadcast `i` finds its message among what it received.
proof fn lemma_received_has(rounds: Seq<(Seq<usize>, Seq<char>)>, id: usize, i: int) -> (a: int)
    requires
        0 <= i < rounds.len(),
        rounds[i].0.contains(id),
    ensures
        0 <= a < received(rounds, id).len(),
        received(rounds, id)[a] == rounds[i].1,
        received(rounds.subrange(0, i + 1), id).len() == a + 1,
{
    let pre = rounds.subrange(0, i + 1);
    assert(pre.drop_last() =~= rounds.subrange(0, i));
    lemma_received_grows(rounds, id, i + 1);
    let a = received(pre, id).len() - 1;
    assert(received(pre, id)[a] == rounds[i].1);
    a
}

/// Messages are delivered in the order they were broadcast: a connection
/// that receives broadcasts `i` and `j`, `i` first, receives the message of
/// `i` before that of `j`.
pub proof fn lemma_broadcast_order(rounds: Seq<(Seq<usize>, Seq<char>)>, id: usize, i: int, j: int)
    requires
        0 <= i < j < rounds.len(),
        rounds[i].0.contains(id),
        rounds[j].0.contains(id),
    ensures
        exists|a: int, b: int|
            0 <= a < b < received(rounds, id).len() && received(rounds, id)[a] == rounds[i].1
                && received(rounds, id)[b] == rounds[j].1,
{
    let a = lemma_received_has(rounds, id, i);
    let b = lemma_received_has(rounds, id, j);
    let pre_j = rounds.subrange(0, j);
    assert(rounds.subrange(0, j + 1).drop_last() =~= pre_j);
    let pre_i = rounds.subrange(0, i + 1);
    assert(pre_j.subrange(0, i + 1) =~= pre_i);
    lemma_received_grows(pre_j, id, i + 1);
    assert(a < b);
}

} // verus!
