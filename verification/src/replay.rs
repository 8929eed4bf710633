//! Replay: folding the entries of a log into the values of the registers.
//!
//! A register starts as zeros, as many as a digest of the chosen algorithm
//! has bytes. Every entry extends one register: the register's new value is
//! the digest of its old value followed by the first digest of the entry.
//! The entries are taken in the order of the log.

use crate::eventlog::{all_have_digest, EntryView, Eventlog};
use crate::hash::HashAlgorithm;
use std::collections::HashMap;
use vstd::prelude::*;
use vstd::slice::slice_to_vec;

verus! {

broadcast use vstd::std_specs::hash::group_hash_axioms;

/// Why a log does not replay.
#[derive(Clone, Copy, Debug, PartialEq, Eq, Structural)]
pub enum ReplayError {
    /// The entry at index `entry` of the log has no digest.
    MissingDigest { entry: usize },
}

/// One extension of a register.
pub struct Extension {
    /// The register that is extended.
    pub register: u32,
    /// The digest that it is extended with.
    pub digest: Seq<u8>,
}

/// `n` zero bytes.
pub open spec fn zeros(n: nat) -> Seq<u8> {
    Seq::new(n, |i: int| 0u8)
}

/// The value of `register` in `registers`: zeros where nothing has extended
/// it yet.
pub open spec fn value_of(
    registers: Map<u32, Seq<u8>>,
    register: u32,
    algorithm: HashAlgorithm,
) -> Seq<u8> {
    if registers.contains_key(register) {
        registers[register]
    } else {
        zeros(algorithm.spec_digest_length())
    }
}

/// The registers after the extensions `steps`, made in order.
pub open spec fn replay_model(algorithm: HashAlgorithm, steps: Seq<Extension>) -> Map<
    u32,
    Seq<u8>,
>
    decreases steps.len(),
{
    if steps.len() == 0 {
        Map::empty()
    } else {
        let before = replay_model(algorithm, steps.drop_last());
        let step = steps.last();
        before.insert(
            step.register,
            algorithm.extended(value_of(before, step.register, algorithm), step.digest),
        )
    }
}

/// The extensions that `entries` make when entry `i` extends the register
/// `targets[i]` with its first digest.
pub open spec fn extensions(entries: Seq<EntryView>, targets: Seq<u32>) -> Seq<Extension> {
    Seq::new(
        entries.len(),
        |i: int| Extension { register: targets[i], digest: entries[i].digests[0].digest },
    )
}

/// Whether `targets` are registers that `mapping` gives for the registers of
/// `entries`, one for one.
pub open spec fn remapped<F: Fn(u32) -> u32>(
    mapping: F,
    entries: Seq<EntryView>,
    targets: Seq<u32>,
) -> bool {
    &&& targets.len() == entries.len()
    &&& forall|i: int|
        0 <= i < entries.len() ==> call_ensures(
            mapping,
            ((#[trigger] entries[i]).target_measurement_registry,),
            targets[i],
        )
}

/// Whether the entry at `i` is the first one without a digest.
pub open spec fn first_without_digest(entries: Seq<EntryView>, i: int) -> bool {
    &&& 0 <= i < entries.len()
    &&& entries[i].digests.len() == 0
    &&& forall|j: int| 0 <= j < i ==> (#[trigger] entries[j]).digests.len() > 0
}

/// The values that `registers` holds, as bytes.
pub open spec fn register_views(registers: Map<u32, Vec<u8>>) -> Map<u32, Seq<u8>> {
    Map::new(|k: u32| registers.contains_key(k), |k: u32| registers[k]@)
}

/// Whether `r` is what replaying `entries` gives, with `algorithm` and with
/// the registers that `mapping` gives.
pub open spec fn replays_to<F: Fn(u32) -> u32>(
    entries: Seq<EntryView>,
    algorithm: HashAlgorithm,
    mapping: F,
    r: Result<HashMap<u32, Vec<u8>>, ReplayError>,
) -> bool {
    match r {
        Ok(registers) => {
            &&& all_have_digest(entries)
            &&& exists|targets: Seq<u32>|
                #[trigger] remapped(mapping, entries, targets) && register_views(registers@)
                    == replay_model(algorithm, extensions(entries, targets))
        },
        Err(ReplayError::MissingDigest { entry }) => first_without_digest(entries, entry as int),
    }
}

impl Eventlog {
    /// Whether every entry has a digest.
    pub fn has_digests(&self) -> (r: bool)
        ensures
            r == all_have_digest(self@),
    {
        let mut i: usize = 0;
        while i < self.log.len()
            invariant
                i <= self.log@.len(),
                all_have_digest(self@.take(i as int)),
            decreases self.log@.len() - i,
        {
            let log_entry = &self.log[i];
            assert(log_entry@ == self@[i as int]);
            if log_entry.digests.len() == 0 {
                return false;
            }
            proof {
                let more = self@.take(i + 1);
                assert forall|j: int| 0 <= j < more.len() implies (#[trigger] more[j]).digests.len()
                    > 0 by {
                    if j < i {
                        assert(self@.take(i as int)[j] == more[j]);
                    }
                }
            }
            i = i + 1;
        }
        proof {
            assert(self@.take(i as int) =~= self@);
        }
        true
    }

    /// Replays the log into the values of the registers.
    ///
    /// Every entry extends the register that `pcr_to_rtmr_mapping` gives for
    /// its own, in the order of the log; with the identity as the mapping
    /// the result is keyed by the registers of the log. The result holds
    /// exactly the registers that some entry extended. A log with an entry
    /// that has no digest does not replay: the error names the first such
    /// entry.
    pub fn replay_measurement_registry<F>(
        &self,
        hash_algorithm: HashAlgorithm,
        pcr_to_rtmr_mapping: F,
    ) -> (r: Result<HashMap<u32, Vec<u8>>, ReplayError>) where F: Fn(u32) -> u32
        requires
            forall|i: int|
                0 <= i < self@.len() ==> call_requires(
                    pcr_to_rtmr_mapping,
                    ((#[trigger] self@[i]).target_measurement_registry,),
                ),
        ensures
            replays_to(self@, hash_algorithm, pcr_to_rtmr_mapping, r),
    {
        let mut result: HashMap<u32, Vec<u8>> = HashMap::new();
        let ghost mut targets: Seq<u32> = Seq::empty();
        let mut i: usize = 0;
        proof {
            assert(register_views(result@) =~= Map::<u32, Seq<u8>>::empty());
        }
        while i < self.log.len()
            invariant
                i <= self.log@.len(),
                forall|k: int|
                    0 <= k < self@.len() ==> call_requires(
                        pcr_to_rtmr_mapping,
                        ((#[trigger] self@[k]).target_measurement_registry,),
                    ),
                all_have_digest(self@.take(i as int)),
                remapped(pcr_to_rtmr_mapping, self@.take(i as int), targets),
                register_views(result@) == replay_model(
                    hash_algorithm,
                    extensions(self@.take(i as int), targets),
                ),
            decreases self.log@.len() - i,
        {
            let log_entry = &self.log[i];
            assert(log_entry@ == self@[i as int]);
            if log_entry.digests.len() == 0 {
                proof {
                    assert forall|j: int| 0 <= j < i implies (#[trigger] self@[j]).digests.len()
                        > 0 by {
                        assert(self@.take(i as int)[j] == self@[j]);
                    }
                }
                return Err(ReplayError::MissingDigest { entry: i });
            }
            let rtmr_index = pcr_to_rtmr_mapping(log_entry.target_measurement_registry);
            let old_value = register_value(&result, hash_algorithm, rtmr_index);
            let mr_value = hash_algorithm.extend(
                old_value.as_slice(),
                log_entry.digests[0].digest.as_slice(),
            );
            let ghost steps = extensions(self@.take(i as int), targets);
            set_register(&mut result, rtmr_index, mr_value);
            proof {
                let more = self@.take(i + 1);
                targets = targets.push(rtmr_index);
                let next = extensions(more, targets);
                assert(next.drop_last() =~= steps);
                assert(next.last().register == rtmr_index);
                assert(next.last().digest == log_entry@.digests[0].digest);
                assert forall|j: int| 0 <= j < more.len() implies (#[trigger] more[j]).digests.len()
                    > 0 by {
                    if j < i {
                        assert(self@.take(i as int)[j] == more[j]);
                    }
                }
                assert forall|j: int| 0 <= j < more.len() implies call_ensures(
                    pcr_to_rtmr_mapping,
                    ((#[trigger] more[j]).target_measurement_registry,),
                    targets[j],
                ) by {
                    if j < i {
                        assert(self@.take(i as int)[j] == more[j]);
                    }
                }
            }
            i = i + 1;
        }
        proof {
            assert(self@.take(i as int) =~= self@);
        }
        Ok(result)
    }
}

/// A register value of `n` zero bytes.
fn zeroed_register(n: usize) -> (r: Vec<u8>)
    ensures
        r@ == zeros(n as nat),
{
    let mut r: Vec<u8> = Vec::new();
    let mut i: usize = 0;
    while i < n
        invariant
            i <= n,
            r@ == zeros(i as nat),
        decreases n - i,
    {
        r.push(0u8);
        assert(r@ =~= zeros((i + 1) as nat));
        i = i + 1;
    }
    r
}

/// The value of `register` in `registers`: zeros, as many as a digest of
/// `algorithm` has bytes, where nothing has extended the register yet.
pub fn register_value(
    registers: &HashMap<u32, Vec<u8>>,
    algorithm: HashAlgorithm,
    register: u32,
) -> (value: Vec<u8>)
    ensures
        value@ == value_of(register_views(registers@), register, algorithm),
{
    match registers.get(&register) {
        Some(value) => slice_to_vec(value.as_slice()),
        None => zeroed_register(algorithm.digest_length()),
    }
}

/// Replaces the value of `register` in `registers` with `value`, and leaves
/// every other register as it is.
pub fn set_register(registers: &mut HashMap<u32, Vec<u8>>, register: u32, value: Vec<u8>)
    ensures
        register_views(final(registers)@) == register_views(old(registers)@).insert(
            register,
            value@,
        ),
{
    registers.insert(register, value);
    assert(register_views(registers@) =~= register_views(old(registers)@).insert(
        register,
        value@,
    ));
}

/// Whether two different messages have the same digest.
pub open spec fn collide(algorithm: HashAlgorithm, first: Seq<u8>, second: Seq<u8>) -> bool {
    first != second && algorithm.digest_of(first) == algorithm.digest_of(second)
}

/// Replay holds a value for exactly the registers that some step extends.
pub proof fn lemma_replayed_registers(algorithm: HashAlgorithm, steps: Seq<Extension>, register: u32)
    ensures
        replay_model(algorithm, steps).contains_key(register) <==> exists|i: int|
            0 <= i < steps.len() && (#[trigger] steps[i]).register == register,
    decreases steps.len(),
{
    if steps.len() > 0 {
        let earlier = steps.drop_last();
        lemma_replayed_registers(algorithm, earlier, register);
        if replay_model(algorithm, steps).contains_key(register) {
            if steps.last().register == register {
                assert(steps[steps.len() - 1].register == register);
            } else {
                let i = choose|i: int|
                    0 <= i < earlier.len() && (#[trigger] earlier[i]).register == register;
                assert(steps[i].register == register);
            }
        }
        if exists|i: int| 0 <= i < steps.len() && (#[trigger] steps[i]).register == register {
            let i = choose|i: int|
                0 <= i < steps.len() && (#[trigger] steps[i]).register == register;
            if i < steps.len() - 1 {
                assert(earlier[i].register == register);
            }
        }
    }
}

/// Every value that replay holds has the length of a digest of the
/// algorithm.
pub proof fn lemma_replayed_lengths(algorithm: HashAlgorithm, steps: Seq<Extension>, register: u32)
    requires
        replay_model(algorithm, steps).contains_key(register),
    ensures
        replay_model(algorithm, steps)[register].len() == algorithm.spec_digest_length(),
    decreases steps.len(),
{
    if steps.len() > 0 && steps.last().register != register {
        lemma_replayed_lengths(algorithm, steps.drop_last(), register);
    }
}

/// A register that exactly one step extends holds the digest of the zero
/// value followed by the digest of that step.
pub proof fn lemma_single_extension(algorithm: HashAlgorithm, steps: Seq<Extension>, i: int)
    requires
        0 <= i < steps.len(),
        forall|j: int|
            0 <= j < steps.len() && j != i ==> (#[trigger] steps[j]).register != steps[i].register,
    ensures
        replay_model(algorithm, steps).contains_key(steps[i].register),
        replay_model(algorithm, steps)[steps[i].register] == algorithm.extended(
            zeros(algorithm.spec_digest_length()),
            steps[i].digest,
        ),
    decreases steps.len(),
{
    let earlier = steps.drop_last();
    let register = steps[i].register;
    if i == steps.len() - 1 {
        lemma_replayed_registers(algorithm, earlier, register);
        if replay_model(algorithm, earlier).contains_key(register) {
            let j = choose|j: int|
                0 <= j < earlier.len() && (#[trigger] earlier[j]).register == register;
            assert(steps[j].register == register);
        }
    } else {
        assert forall|j: int| 0 <= j < earlier.len() && j != i implies (#[trigger] earlier[j]).register
            != earlier[i].register by {
            assert(steps[j].register != steps[i].register);
        }
        lemma_single_extension(algorithm, earlier, i);
        assert(steps[steps.len() - 1].register != register);
    }
}

/// Extension does not commute: two steps on one register with different
/// digests leave different values in the two orders, unless the digest
/// function collides on the two messages that the second steps hash.
pub proof fn lemma_order_matters(
    algorithm: HashAlgorithm,
    register: u32,
    first: Seq<u8>,
    second: Seq<u8>,
)
    requires
        first != second,
        !collide(
            algorithm,
            algorithm.extended(zeros(algorithm.spec_digest_length()), first) + second,
            algorithm.extended(zeros(algorithm.spec_digest_length()), second) + first,
        ),
    ensures
        replay_model(
            algorithm,
            seq![
                Extension { register, digest: first },
                Extension { register, digest: second },
            ],
        ) != replay_model(
            algorithm,
            seq![
                Extension { register, digest: second },
                Extension { register, digest: first },
            ],
        ),
{
    let a = Extension { register, digest: first };
    let b = Extension { register, digest: second };
    let zero = zeros(algorithm.spec_digest_length());
    let after_a = algorithm.extended(zero, first);
    let after_b = algorithm.extended(zero, second);
    lemma_two_steps(algorithm, a, b);
    lemma_two_steps(algorithm, b, a);
    if algorithm.digest_of(after_a + second) == algorithm.digest_of(after_b + first) {
        let left = after_a + second;
        let right = after_b + first;
        assert(left == right);
        assert(first =~= right.subrange(after_b.len() as int, right.len() as int));
        assert(second =~= left.subrange(after_a.len() as int, left.len() as int));
    }
}

/// The value of a register after two steps on it.
proof fn lemma_two_steps(algorithm: HashAlgorithm, a: Extension, b: Extension)
    requires
        a.register == b.register,
    ensures
        replay_model(algorithm, seq![a, b]).contains_key(a.register),
        replay_model(algorithm, seq![a, b])[a.register] == algorithm.extended(
            algorithm.extended(zeros(algorithm.spec_digest_length()), a.digest),
            b.digest,
        ),
{
    let both = seq![a, b];
    let one = seq![a];
    assert(both.drop_last() =~= one);
    assert(one.drop_last() =~= Seq::<Extension>::empty());
    assert(replay_model(algorithm, one.drop_last()) =~= Map::<u32, Seq<u8>>::empty());
    assert(replay_model(algorithm, one) == Map::<u32, Seq<u8>>::empty().insert(
        a.register,
        algorithm.extended(zeros(algorithm.spec_digest_length()), a.digest),
    ));
}

/// Replay is a function of the entries, the algorithm and the mapping:
/// where the mapping gives one register for each register, two replays of
/// the same entries end alike, in the same error or in the same registers
/// with the same values.
pub proof fn lemma_replay_deterministic<F: Fn(u32) -> u32>(
    entries: Seq<EntryView>,
    algorithm: HashAlgorithm,
    mapping: F,
    first: Result<HashMap<u32, Vec<u8>>, ReplayError>,
    second: Result<HashMap<u32, Vec<u8>>, ReplayError>,
)
    requires
        replays_to(entries, algorithm, mapping, first),
        replays_to(entries, algorithm, mapping, second),
        forall|pcr: u32, one: u32, other: u32|
            call_ensures(mapping, (pcr,), one) && call_ensures(mapping, (pcr,), other) ==> one
                == other,
    ensures
        first is Ok <==> second is Ok,
        first matches Ok(a) ==> second matches Ok(b) && register_views(a@) == register_views(b@),
        first matches Err(a) ==> second matches Err(b) && a == b,
{
    match (first, second) {
        (Ok(a), Ok(b)) => {
            let ta = choose|targets: Seq<u32>|
                #[trigger] remapped(mapping, entries, targets) && register_views(a@)
                    == replay_model(algorithm, extensions(entries, targets));
            let tb = choose|targets: Seq<u32>|
                #[trigger] remapped(mapping, entries, targets) && register_views(b@)
                    == replay_model(algorithm, extensions(entries, targets));
            assert forall|i: int| 0 <= i < entries.len() implies ta[i] == tb[i] by {
                let pcr = entries[i].target_measurement_registry;
                assert(call_ensures(mapping, (pcr,), ta[i]));
                assert(call_ensures(mapping, (pcr,), tb[i]));
            }
            assert(ta =~= tb);
        },
        (Err(ReplayError::MissingDigest { entry: a }), Err(ReplayError::MissingDigest { entry: b })) => {
            if a < b {
                assert(entries[a as int].digests.len() > 0);
            }
            if b < a {
                assert(entries[b as int].digests.len() > 0);
            }
        },
        (Ok(_), Err(ReplayError::MissingDigest { entry })) => {
            assert(entries[entry as int].digests.len() > 0);
        },
        (Err(ReplayError::MissingDigest { entry }), Ok(_)) => {
            assert(entries[entry as int].digests.len() > 0);
        },
    }
}

/// The digests of the steps of `steps` that extend `register`, in order.
pub open spec fn chain(steps: Seq<Extension>, register: u32) -> Seq<Seq<u8>>
    decreases steps.len(),
{
    if steps.len() == 0 {
        Seq::empty()
    } else if steps.last().register == register {
        chain(steps.drop_last(), register).push(steps.last().digest)
    } else {
        chain(steps.drop_last(), register)
    }
}

/// The value of a register that starts as zeros and is extended with the
/// digests of `digests`, in order.
pub open spec fn folded(algorithm: HashAlgorithm, digests: Seq<Seq<u8>>) -> Seq<u8>
    decreases digests.len(),
{
    if digests.len() == 0 {
        zeros(algorithm.spec_digest_length())
    } else {
        algorithm.extended(folded(algorithm, digests.drop_last()), digests.last())
    }
}

/// The value of a register depends on the steps that extend it alone, in
/// their order in the log: it is the fold of their digests.
pub proof fn lemma_registers_are_independent(
    algorithm: HashAlgorithm,
    steps: Seq<Extension>,
    register: u32,
)
    ensures
        value_of(replay_model(algorithm, steps), register, algorithm) == folded(
            algorithm,
            chain(steps, register),
        ),
        replay_model(algorithm, steps).contains_key(register) <==> chain(steps, register).len()
            > 0,
    decreases steps.len(),
{
    if steps.len() > 0 {
        lemma_registers_are_independent(algorithm, steps.drop_last(), register);
        if steps.last().register == register {
            let before = chain(steps.drop_last(), register);
            assert(before.push(steps.last().digest).drop_last() =~= before);
        }
    }
}

/// Two logs of the same two entries, in the two orders, replay to different
/// values of the register that both entries extend: the entries have one
/// register and different first digests, the mapping gives `target` for
/// that register and nothing else, and the digest function does not collide
/// on the two messages that the second steps hash.
pub proof fn lemma_replay_order_matters<F: Fn(u32) -> u32>(
    a: EntryView,
    b: EntryView,
    algorithm: HashAlgorithm,
    mapping: F,
    target: u32,
    first: Result<HashMap<u32, Vec<u8>>, ReplayError>,
    second: Result<HashMap<u32, Vec<u8>>, ReplayError>,
)
    requires
        a.target_measurement_registry == b.target_measurement_registry,
        a.digests.len() > 0,
        b.digests.len() > 0,
        a.digests[0].digest != b.digests[0].digest,
        forall|t: u32|
            call_ensures(mapping, (a.target_measurement_registry,), t) ==> t == target,
        replays_to(seq![a, b], algorithm, mapping, first),
        replays_to(seq![b, a], algorithm, mapping, second),
        !collide(
            algorithm,
            algorithm.extended(zeros(algorithm.spec_digest_length()), a.digests[0].digest)
                + b.digests[0].digest,
            algorithm.extended(zeros(algorithm.spec_digest_length()), b.digests[0].digest)
                + a.digests[0].digest,
        ),
    ensures
        first matches Ok(x) && second matches Ok(y) && x@.contains_key(target) && y@.contains_key(
            target,
        ) && x@[target]@ != y@[target]@,
{
    let ab = seq![a, b];
    let ba = seq![b, a];
    let da = a.digests[0].digest;
    let db = b.digests[0].digest;
    let step_a = Extension { register: target, digest: da };
    let step_b = Extension { register: target, digest: db };
    match first {
        Err(ReplayError::MissingDigest { entry }) => {
            assert(ab[entry as int].digests.len() == 0);
        },
        Ok(x) => {
            let t = choose|targets: Seq<u32>|
                #[trigger] remapped(mapping, ab, targets) && register_views(x@) == replay_model(
                    algorithm,
                    extensions(ab, targets),
                );
            assert(call_ensures(mapping, (ab[0].target_measurement_registry,), t[0]));
            assert(call_ensures(mapping, (ab[1].target_measurement_registry,), t[1]));
            assert(extensions(ab, t) =~= seq![step_a, step_b]);
            lemma_two_steps(algorithm, step_a, step_b);
        },
    }
    match second {
        Err(ReplayError::MissingDigest { entry }) => {
            assert(ba[entry as int].digests.len() == 0);
        },
        Ok(y) => {
            let t = choose|targets: Seq<u32>|
                #[trigger] remapped(mapping, ba, targets) && register_views(y@) == replay_model(
                    algorithm,
                    extensions(ba, targets),
                );
            assert(call_ensures(mapping, (ba[0].target_measurement_registry,), t[0]));
            assert(call_ensures(mapping, (ba[1].target_measurement_registry,), t[1]));
            assert(extensions(ba, t) =~= seq![step_b, step_a]);
            lemma_two_steps(algorithm, step_b, step_a);
        },
    }
    let zero = zeros(algorithm.spec_digest_length());
    let left = algorithm.extended(zero, da) + db;
    let right = algorithm.extended(zero, db) + da;
    if algorithm.digest_of(left) == algorithm.digest_of(right) {
        assert(left == right);
        assert(da =~= right.subrange(algorithm.extended(zero, db).len() as int, right.len() as int));
        assert(db =~= left.subrange(algorithm.extended(zero, da).len() as int, left.len() as int));
    }
}

} // verus!
