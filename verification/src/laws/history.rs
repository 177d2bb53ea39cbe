//! The store over time.
//!
//! The store is changed by one operation at a time, whoever asks for it and
//! in whatever order the requests arrive. So what holds after every sequence
//! of operations holds of the store however its users take turns: no session
//! is taken out early, none is left over, and none comes to be but by a
//! registration.
//!
//! The operations are what the methods of `SessionTracker` do:
//! `insert_session_at` is a `Register`, `update_session_at` and
//! `try_update_session_timeout_at` are an `Extend`, `drop_stale_sessions_at`
//! is a `Sweep` and `_delete_session` is a `Delete`.

use crate::tracker::{extended, merged, swept};
use vstd::prelude::*;

verus! {

/// One change of the store.
pub enum StoreOp {
    /// A registration of `key` until `expiry`.
    Register { key: Seq<char>, expiry: u64 },
    /// Traffic on `key`, which keeps its session until `expiry` at least.
    Extend { key: Seq<char>, expiry: u64 },
    /// A sweep at the instant `now`.
    Sweep { now: u64 },
    /// The removal of `key`.
    Delete { key: Seq<char> },
}

/// The store `m` after the operation `op`.
pub open spec fn step(m: Map<Seq<char>, u64>, op: StoreOp) -> Map<Seq<char>, u64> {
    match op {
        StoreOp::Register { key, expiry } => merged(m, key, expiry),
        StoreOp::Extend { key, expiry } => extended(m, key, expiry),
        StoreOp::Sweep { now } => swept(m, now),
        StoreOp::Delete { key } => m.remove(key),
    }
}

/// The store `m` after the operations `ops`, the first of them first.
pub open spec fn run(m: Map<Seq<char>, u64>, ops: Seq<StoreOp>) -> Map<Seq<char>, u64>
    decreases ops.len(),
{
    if ops.len() == 0 {
        m
    } else {
        step(run(m, ops.drop_last()), ops.last())
    }
}

/// Whether `op` leaves alone a session of `key` that expires at `expiry` or
/// later: it is no sweep at or after `expiry`, and no removal of `key`.
pub open spec fn spares(op: StoreOp, key: Seq<char>, expiry: u64) -> bool {
    match op {
        StoreOp::Sweep { now } => now < expiry,
        StoreOp::Delete { key: k } => k != key,
        _ => true,
    }
}

/// Whether `op` is no registration of `key`.
pub open spec fn registers_not(op: StoreOp, key: Seq<char>) -> bool {
    match op {
        StoreOp::Register { key: k, expiry } => k != key,
        _ => true,
    }
}

/// No session is taken out early. A session that is there until `expiry`
/// is still there, and until `expiry` at least, after any operations, in
/// any order, among which there is no sweep at or after `expiry` and no
/// removal of its key.
pub proof fn lemma_session_lasts(
    m: Map<Seq<char>, u64>,
    ops: Seq<StoreOp>,
    key: Seq<char>,
    expiry: u64,
)
    requires
        m.contains_key(key),
        m[key] >= expiry,
        forall|i: int| 0 <= i < ops.len() ==> spares(#[trigger] ops[i], key, expiry),
    ensures
        run(m, ops).contains_key(key),
        run(m, ops)[key] >= expiry,
    decreases ops.len(),
{
    if ops.len() > 0 {
        let init = ops.drop_last();
        assert forall|i: int| 0 <= i < init.len() implies spares(#[trigger] init[i], key, expiry) by {
            assert(init[i] == ops[i]);
        }
        lemma_session_lasts(m, init, key, expiry);
        assert(spares(ops[ops.len() - 1], key, expiry));
    }
}

/// A registration lasts. After a registration of `key` until `expiry`,
/// the session is there until `expiry` at least, whatever operations follow
/// and in whatever order, as long as there is among them no sweep at or
/// after `expiry` and no removal of the key.
pub proof fn lemma_registration_lasts(
    m: Map<Seq<char>, u64>,
    ops: Seq<StoreOp>,
    key: Seq<char>,
    expiry: u64,
)
    requires
        forall|i: int| 0 <= i < ops.len() ==> spares(#[trigger] ops[i], key, expiry),
    ensures
        run(merged(m, key, expiry), ops).contains_key(key),
        run(merged(m, key, expiry), ops)[key] >= expiry,
{
    lemma_session_lasts(merged(m, key, expiry), ops, key, expiry);
}

/// No session is left over. After a sweep, whatever came before it, every
/// session in the store expires later than the instant of the sweep.
pub proof fn lemma_sweep_clears(m: Map<Seq<char>, u64>, ops: Seq<StoreOp>, now: u64)
    ensures
        forall|k: Seq<char>|
            run(m, ops.push(StoreOp::Sweep { now })).contains_key(k) ==> #[trigger] run(
                m,
                ops.push(StoreOp::Sweep { now }),
            )[k] > now,
{
    let all = ops.push(StoreOp::Sweep { now });
    assert(all.drop_last() =~= ops);
    assert(all.last() == StoreOp::Sweep { now });
}

/// No session comes to be but by a registration. A key that is not in the
/// store is not in it after any operations among which there is no
/// registration of that key.
pub proof fn lemma_absent_stays_absent(m: Map<Seq<char>, u64>, ops: Seq<StoreOp>, key: Seq<char>)
    requires
        !m.contains_key(key),
        forall|i: int| 0 <= i < ops.len() ==> registers_not(#[trigger] ops[i], key),
    ensures
        !run(m, ops).contains_key(key),
    decreases ops.len(),
{
    if ops.len() > 0 {
        let init = ops.drop_last();
        assert forall|i: int| 0 <= i < init.len() implies registers_not(#[trigger] init[i], key) by {
            assert(init[i] == ops[i]);
        }
        lemma_absent_stays_absent(m, init, key);
        assert(registers_not(ops[ops.len() - 1], key));
    }
}

/// A session that has ended stays out. After a sweep at or after the expiry
/// of a session, the session is gone, and it stays away whatever operations
/// follow, until its key is registered again.
pub proof fn lemma_ended_stays_out(
    m: Map<Seq<char>, u64>,
    now: u64,
    ops: Seq<StoreOp>,
    key: Seq<char>,
)
    requires
        m.contains_key(key) ==> m[key] <= now,
        forall|i: int| 0 <= i < ops.len() ==> registers_not(#[trigger] ops[i], key),
    ensures
        !run(swept(m, now), ops).contains_key(key),
{
    lemma_absent_stays_absent(swept(m, now), ops, key);
}

/// Two registrations leave the same store in either order, whether they are
/// of one key or of two.
pub proof fn lemma_registrations_commute(
    m: Map<Seq<char>, u64>,
    key1: Seq<char>,
    expiry1: u64,
    key2: Seq<char>,
    expiry2: u64,
)
    ensures
        merged(merged(m, key1, expiry1), key2, expiry2) == merged(
            merged(m, key2, expiry2),
            key1,
            expiry1,
        ),
{
    assert(merged(merged(m, key1, expiry1), key2, expiry2) =~= merged(
        merged(m, key2, expiry2),
        key1,
        expiry1,
    ));
}

/// The expiry of a session never moves back while the session is there:
/// after operations among which there is no sweep and no removal, every
/// session that was there is there, and expires no earlier than before.
pub proof fn lemma_expiry_never_moves_back(
    m: Map<Seq<char>, u64>,
    ops: Seq<StoreOp>,
    key: Seq<char>,
)
    requires
        m.contains_key(key),
        forall|i: int|
            0 <= i < ops.len() ==> !(#[trigger] ops[i] is Sweep) && !(ops[i] is Delete),
    ensures
        run(m, ops).contains_key(key),
        run(m, ops)[key] >= m[key],
{
    assert forall|i: int| 0 <= i < ops.len() implies spares(#[trigger] ops[i], key, m[key]) by {
        assert(!(ops[i] is Sweep) && !(ops[i] is Delete));
    }
    lemma_session_lasts(m, ops, key, m[key]);
}

} // verus!
