//! What holds of the record store as a whole: the witnesses that the
//! server keeps lead to writer signatures along back-pointers, the proofs
//! that it builds from them are accepted, and what a client accepts
//! descends from a writer signature.

use vstd::prelude::*;
use crate::crypto;
use crate::crypto::{ec_public_key, ecdsa_accepts, signed_by, spec_hash_record_header};
use crate::dag::client::{
    chain_proves, first_known, known_names, leads_to_known, linked_at, newly_proven,
    proof_accepted, signature_good,
};
use crate::dag::server::{
    CapsuleView, lemma_never_further_trans, proof_walk, propagated, spec_signed, wave_from,
    wave_reach, wave_step, waves, waves_reach,
};
use crate::dag::storage::{lemma_stored_header_found, never_further, witness_of};
use crate::dc_repr::{BestEffortProofView, RecordHeaderView, RecordView, WitnessView};

verus! {

/// Whether a witness of `name`, if it is a pointer, follows a
/// back-pointer: the record that it points to is stored and points back to
/// `name`.
pub open spec fn pointer_ok(
    headers: Map<crypto::Hash, RecordHeaderView>,
    witness: WitnessView,
    name: crypto::Hash,
) -> bool {
    match witness {
        WitnessView::NextRecordPtr(next, _) => headers.dom().contains(next)
            && headers[next].ptrs().contains(name),
        _ => true,
    }
}

/// Whether a witness of `name`, if it is a signature, is the writer's over
/// `name`.
pub open spec fn signature_ok(witness: WitnessView, name: crypto::Hash, writer_key: Seq<u8>) -> bool {
    match witness {
        WitnessView::Signature(sig) => ecdsa_accepts(sig, name, writer_key),
        _ => true,
    }
}

/// Whether every pointer among the witnesses follows a back-pointer.
pub open spec fn pointers_linked(
    headers: Map<crypto::Hash, RecordHeaderView>,
    witnesses: Map<crypto::Hash, WitnessView>,
) -> bool {
    forall|name: crypto::Hash| pointer_ok(headers, #[trigger] witness_of(witnesses, name), name)
}

/// Whether every signature among the witnesses is the writer's over the
/// name of the record that it stands for.
pub open spec fn signatures_good(
    witnesses: Map<crypto::Hash, WitnessView>,
    writer_key: Seq<u8>,
) -> bool {
    forall|name: crypto::Hash|
        signature_ok(#[trigger] witness_of(witnesses, name), name, writer_key)
}

/// Whether every signature among the witnesses `after` stood there
/// `before`.
pub open spec fn signatures_kept(
    before: Map<crypto::Hash, WitnessView>,
    after: Map<crypto::Hash, WitnessView>,
) -> bool {
    forall|name: crypto::Hash|
        (#[trigger] witness_of(after, name)) is Signature ==> witness_of(before, name)
            == witness_of(after, name)
}

/// Witnesses among which no signature is new hold good signatures alone
/// where they did before.
pub proof fn lemma_kept_signatures_good(
    before: Map<crypto::Hash, WitnessView>,
    after: Map<crypto::Hash, WitnessView>,
    writer_key: Seq<u8>,
)
    requires
        signatures_kept(before, after),
        signatures_good(before, writer_key),
    ensures
        signatures_good(after, writer_key),
{
    assert forall|name: crypto::Hash|
        signature_ok(#[trigger] witness_of(after, name), name, writer_key) by {
        if witness_of(after, name) is Signature {
            assert(signature_ok(witness_of(before, name), name, writer_key));
        }
    }
}

/// Whether every entry of a wave names a record and a stored record that
/// points back to it.
pub open spec fn wave_linked(
    headers: Map<crypto::Hash, RecordHeaderView>,
    wave: Seq<(crypto::Hash, crypto::Hash)>,
) -> bool {
    forall|i: int|
        0 <= i < wave.len() ==> headers.dom().contains((#[trigger] wave[i]).1)
            && headers[wave[i].1].ptrs().contains(wave[i].0)
}

/// Whether the witness of `name`, if it is a pointer, leads on: its
/// distance is at least one, and the record that it points to has a witness
/// that is closer to a signature.
pub open spec fn steps_closer(witnesses: Map<crypto::Hash, WitnessView>, name: crypto::Hash) -> bool {
    match witness_of(witnesses, name) {
        WitnessView::NextRecordPtr(next, distance) => distance >= 1 && witness_of(
            witnesses,
            next,
        ).closer_than(witness_of(witnesses, name)),
        _ => true,
    }
}

/// Whether every pointer among the witnesses leads to a record with a
/// closer witness: following the pointers from any record, the distance
/// falls at every step, and the walk ends at a signature.
pub open spec fn pointers_descend(witnesses: Map<crypto::Hash, WitnessView>) -> bool {
    forall|name: crypto::Hash| #[trigger] steps_closer(witnesses, name)
}

/// Where no record has a witness, every pointer leads on: there is none.
pub proof fn lemma_no_witness_descends()
    ensures
        pointers_descend(Map::<crypto::Hash, WitnessView>::empty()),
{
    let none = Map::<crypto::Hash, WitnessView>::empty();
    assert forall|name: crypto::Hash| #[trigger] steps_closer(none, name) by {}
}

/// Where every pointer leads on, the record that a pointer of distance one
/// points to carries a signature.
pub proof fn lemma_nearest_is_signed(
    witnesses: Map<crypto::Hash, WitnessView>,
    name: crypto::Hash,
    next: crypto::Hash,
)
    requires
        pointers_descend(witnesses),
        witness_of(witnesses, name) == WitnessView::NextRecordPtr(next, 1),
    ensures
        witness_of(witnesses, next) is Signature,
{
    assert(steps_closer(witnesses, name));
    assert(steps_closer(witnesses, next));
}

/// A wave moves no witness further from a signature, however far it runs.
pub proof fn lemma_wave_reach_never_further(
    headers: Map<crypto::Hash, RecordHeaderView>,
    witnesses: Map<crypto::Hash, WitnessView>,
    wave: Seq<(crypto::Hash, crypto::Hash)>,
    distance: u64,
)
    ensures
        never_further(witnesses, wave_reach(headers, witnesses, wave, distance)),
    decreases wave.len(),
{
    if wave.len() > 0 {
        let reached = wave_reach(headers, witnesses, wave.drop_last(), distance);
        lemma_wave_reach_never_further(headers, witnesses, wave.drop_last(), distance);
        let out = wave_reach(headers, witnesses, wave, distance);
        assert forall|name: crypto::Hash|
            !(#[trigger] witness_of(witnesses, name)).closer_than(witness_of(out, name)) by {
            assert(!witness_of(witnesses, name).closer_than(witness_of(reached, name)));
        }
    }
}

/// Every record that a wave reaches before it stops ends with a witness
/// that is no further from a signature than the pointer that the wave
/// offers it: at most `distance` pointers lead from it to a signed record.
pub proof fn lemma_wave_reach_close(
    headers: Map<crypto::Hash, RecordHeaderView>,
    witnesses: Map<crypto::Hash, WitnessView>,
    wave: Seq<(crypto::Hash, crypto::Hash)>,
    distance: u64,
    t: int,
)
    requires
        0 <= t < wave.len(),
        wave_step(headers, witnesses, wave.take(t + 1), distance) is Some,
    ensures
        witness_of(wave_reach(headers, witnesses, wave, distance), wave[t].0).rank() <= 1
            + distance,
    decreases wave.len(),
{
    let rest = wave.drop_last();
    let reached = wave_reach(headers, witnesses, rest, distance);
    if t == wave.len() - 1 {
        assert(wave.take(t + 1) =~= wave);
    } else {
        assert(rest.take(t + 1) =~= wave.take(t + 1));
        assert(rest[t] == wave[t]);
        lemma_wave_reach_close(headers, witnesses, rest, distance, t);
    }
}

/// The waves of a propagation move no witness further from a signature,
/// wherever they stop.
pub proof fn lemma_waves_reach_never_further(
    headers: Map<crypto::Hash, RecordHeaderView>,
    witnesses: Map<crypto::Hash, WitnessView>,
    wave: Seq<(crypto::Hash, crypto::Hash)>,
    distance: u64,
)
    ensures
        never_further(witnesses, waves_reach(headers, witnesses, wave, distance)),
    decreases u64::MAX - distance,
{
    let reached = wave_reach(headers, witnesses, wave, distance);
    lemma_wave_reach_never_further(headers, witnesses, wave, distance);
    match wave_step(headers, witnesses, wave, distance) {
        None => {},
        Some((_, next)) => {
            if next.len() != 0 && distance != u64::MAX {
                lemma_waves_reach_never_further(headers, reached, next, (distance + 1) as u64);
                lemma_never_further_trans(
                    witnesses,
                    reached,
                    waves_reach(headers, reached, next, (distance + 1) as u64),
                );
            }
        },
    }
}

/// Whether every entry of a wave is reached through a record whose witness
/// is no further from a signature than `bound` pointers.
pub open spec fn wave_close(
    witnesses: Map<crypto::Hash, WitnessView>,
    wave: Seq<(crypto::Hash, crypto::Hash)>,
    bound: int,
) -> bool {
    forall|i: int|
        0 <= i < wave.len() ==> witness_of(witnesses, (#[trigger] wave[i]).1).rank() <= bound
}

/// Whether the witnesses of a capsule can be followed: headers stand under
/// their hashes, pointers follow back-pointers, and signatures are the
/// writer's.
pub open spec fn witnesses_sound(capsule: CapsuleView, writer_key: Seq<u8>) -> bool {
    &&& capsule.content_addressed()
    &&& pointers_linked(capsule.index.headers, capsule.witnesses)
    &&& signatures_good(capsule.witnesses, writer_key)
}

/// The wave that a stored record starts is linked.
pub proof fn lemma_wave_from_linked(
    headers: Map<crypto::Hash, RecordHeaderView>,
    name: crypto::Hash,
)
    requires
        headers.dom().contains(name),
    ensures
        wave_linked(headers, wave_from(headers[name], name)),
{
    let wave = wave_from(headers[name], name);
    assert forall|i: int| 0 <= i < wave.len() implies headers.dom().contains(
        (#[trigger] wave[i]).1,
    ) && headers[wave[i].1].ptrs().contains(wave[i].0) by {
        assert(headers[name].ptrs()[i] == wave[i].0);
    }
}

/// One wave over a linked wave keeps the witnesses sound, and the wave
/// that follows is linked.
pub proof fn lemma_wave_step_keeps(
    headers: Map<crypto::Hash, RecordHeaderView>,
    witnesses: Map<crypto::Hash, WitnessView>,
    wave: Seq<(crypto::Hash, crypto::Hash)>,
    distance: u64,
    writer_key: Seq<u8>,
)
    requires
        pointers_linked(headers, witnesses),
        signatures_good(witnesses, writer_key),
        wave_linked(headers, wave),
        wave_step(headers, witnesses, wave, distance) is Some,
    ensures
        pointers_linked(headers, wave_step(headers, witnesses, wave, distance)->Some_0.0),
        signatures_good(wave_step(headers, witnesses, wave, distance)->Some_0.0, writer_key),
        wave_linked(headers, wave_step(headers, witnesses, wave, distance)->Some_0.1),
    decreases wave.len(),
{
    if wave.len() > 0 {
        let rest = wave.drop_last();
        assert forall|i: int| 0 <= i < rest.len() implies headers.dom().contains(
            (#[trigger] rest[i]).1,
        ) && headers[rest[i].1].ptrs().contains(rest[i].0) by {
            assert(rest[i] == wave[i]);
        }
        lemma_wave_step_keeps(headers, witnesses, rest, distance, writer_key);
        let (reached, next) = wave_step(headers, witnesses, rest, distance)->Some_0;
        let (name, parent) = wave.last();
        assert(wave[wave.len() - 1] == wave.last());
        let proposed = WitnessView::NextRecordPtr(parent, distance);
        let previous = witness_of(reached, name);
        let after = reached.insert(name, previous.closer(proposed));
        assert forall|n: crypto::Hash|
            pointer_ok(headers, #[trigger] witness_of(after, n), n) by {
            if n != name {
                assert(witness_of(after, n) == witness_of(reached, n));
            } else {
                assert(pointer_ok(headers, witness_of(reached, n), n));
            }
        }
        assert forall|n: crypto::Hash|
            signature_ok(#[trigger] witness_of(after, n), n, writer_key) by {
            if n != name {
                assert(witness_of(after, n) == witness_of(reached, n));
            } else {
                assert(signature_ok(witness_of(reached, n), n, writer_key));
            }
        }
        if proposed.closer_than(previous) {
            lemma_wave_from_linked(headers, name);
            let more = wave_from(headers[name], name);
            let all = next + more;
            assert forall|i: int| 0 <= i < all.len() implies headers.dom().contains(
                (#[trigger] all[i]).1,
            ) && headers[all[i].1].ptrs().contains(all[i].0) by {
                if i < next.len() {
                    assert(all[i] == next[i]);
                } else {
                    assert(all[i] == more[i - next.len()]);
                }
            }
        }
    }
}

/// All waves from a linked wave on keep the witnesses sound.
pub proof fn lemma_waves_keep(
    headers: Map<crypto::Hash, RecordHeaderView>,
    witnesses: Map<crypto::Hash, WitnessView>,
    wave: Seq<(crypto::Hash, crypto::Hash)>,
    distance: u64,
    writer_key: Seq<u8>,
)
    requires
        pointers_linked(headers, witnesses),
        signatures_good(witnesses, writer_key),
        wave_linked(headers, wave),
        waves(headers, witnesses, wave, distance) is Some,
    ensures
        pointers_linked(headers, waves(headers, witnesses, wave, distance)->Some_0),
        signatures_good(waves(headers, witnesses, wave, distance)->Some_0, writer_key),
    decreases u64::MAX - distance,
{
    if wave.len() > 0 {
        lemma_wave_step_keeps(headers, witnesses, wave, distance, writer_key);
        let (reached, next) = wave_step(headers, witnesses, wave, distance)->Some_0;
        if next.len() > 0 {
            lemma_waves_keep(headers, reached, next, (distance + 1) as u64, writer_key);
        }
    }
}

/// Storing a signature that the writer's key accepts keeps the witnesses
/// sound.
pub proof fn lemma_signed_keeps(
    headers: Map<crypto::Hash, RecordHeaderView>,
    witnesses: Map<crypto::Hash, WitnessView>,
    name: crypto::Hash,
    signature: Seq<u8>,
    writer_key: Seq<u8>,
)
    requires
        pointers_linked(headers, witnesses),
        signatures_good(witnesses, writer_key),
        ecdsa_accepts(signature, name, writer_key),
    ensures
        pointers_linked(headers, spec_signed(witnesses, name, signature)),
        signatures_good(spec_signed(witnesses, name, signature), writer_key),
{
    let after = spec_signed(witnesses, name, signature);
    assert forall|n: crypto::Hash| pointer_ok(headers, #[trigger] witness_of(after, n), n) by {
        if n != name {
            assert(witness_of(after, n) == witness_of(witnesses, n));
        } else {
            assert(pointer_ok(headers, witness_of(witnesses, n), n));
        }
    }
    assert forall|n: crypto::Hash|
        signature_ok(#[trigger] witness_of(after, n), n, writer_key) by {
        if n != name {
            assert(witness_of(after, n) == witness_of(witnesses, n));
        } else {
            assert(signature_ok(witness_of(witnesses, n), n, writer_key));
            assert(witness_of(witnesses, n).closer(WitnessView::Signature(signature))
                == witness_of(after, n));
        }
    }
}

/// Signing a record with a signature that the writer's key accepts, and
/// propagating the signature to the ancestors, keeps the witnesses sound.
pub proof fn lemma_sign_keeps(
    headers: Map<crypto::Hash, RecordHeaderView>,
    witnesses: Map<crypto::Hash, WitnessView>,
    name: crypto::Hash,
    signature: Seq<u8>,
    writer_key: Seq<u8>,
)
    requires
        pointers_linked(headers, witnesses),
        signatures_good(witnesses, writer_key),
        ecdsa_accepts(signature, name, writer_key),
        propagated(headers, spec_signed(witnesses, name, signature), name) is Some,
    ensures
        pointers_linked(
            headers,
            propagated(headers, spec_signed(witnesses, name, signature), name)->Some_0,
        ),
        signatures_good(
            propagated(headers, spec_signed(witnesses, name, signature), name)->Some_0,
            writer_key,
        ),
{
    lemma_signed_keeps(headers, witnesses, name, signature, writer_key);
    lemma_wave_from_linked(headers, name);
    lemma_waves_keep(
        headers,
        spec_signed(witnesses, name, signature),
        wave_from(headers[name], name),
        1,
        writer_key,
    );
}

/// Writing an accepted record keeps the witnesses sound, unless another
/// header is already stored under the name of the record.
pub proof fn lemma_write_keeps_sound(capsule: CapsuleView, record: RecordView, writer_key: Seq<u8>)
    requires
        witnesses_sound(capsule, writer_key),
        CapsuleView::accepts(record),
        capsule.index.headers.dom().contains(spec_hash_record_header(record.header))
            ==> capsule.index.headers[spec_hash_record_header(record.header)] == record.header,
    ensures
        witnesses_sound(capsule.write(record), writer_key),
{
    let name = spec_hash_record_header(record.header);
    let after = capsule.write(record);
    lemma_stored_header_found(capsule.index, name, record.header);
    crate::dag::server::lemma_write_keeps_integrity(capsule, record);
    assert forall|n: crypto::Hash|
        pointer_ok(after.index.headers, #[trigger] witness_of(after.witnesses, n), n) by {
        assert(witness_of(capsule.witnesses, n) == witness_of(after.witnesses, n));
        assert(pointer_ok(capsule.index.headers, witness_of(capsule.witnesses, n), n));
    }
}

/// A capsule whose creator has signed its name with the private key that
/// belongs to the creator's public key is bound: a server accepts it.
pub proof fn lemma_own_capsule_bound(dc: crate::dc_repr::MetadataView, private_key: Seq<u8>)
    requires
        ec_public_key(private_key) == Some(dc.creator_pub_key),
        signed_by(dc.signature, crate::dag::server::spec_dc_name(dc), private_key),
    ensures
        crate::dag::server::capsule_bound(dc),
{
}

/// A signature over a record name that was made with the private key that
/// belongs to the writer's public key is the writer's: a server stores it
/// as a witness, and a client accepts it in a proof.
pub proof fn lemma_own_signature_accepted(
    signature: Seq<u8>,
    name: crypto::Hash,
    private_key: Seq<u8>,
    writer_key: Seq<u8>,
)
    requires
        ec_public_key(private_key) == Some(writer_key),
        signed_by(signature, name, private_key),
    ensures
        ecdsa_accepts(signature, name, writer_key),
{
}

/// A capsule without records has sound witnesses.
pub proof fn lemma_created_sound(dc_name: crypto::Hash, writer_key: Seq<u8>)
    ensures
        witnesses_sound(CapsuleView::created(dc_name), writer_key),
{
}

/// What a walk that ended at a signature has found: the chain starts at
/// the header of the record, each later header points back to the one
/// before, and the signature is stored for the record of the last header.
pub proof fn lemma_signed_walk(
    capsule: CapsuleView,
    writer_key: Seq<u8>,
    cached: Set<crypto::Hash>,
    cur: crypto::Hash,
    fuel: nat,
)
    requires
        witnesses_sound(capsule, writer_key),
        proof_walk(capsule.index.headers, capsule.witnesses, cached, cur, fuel).signature is Some,
    ensures
        ({
            let walk = proof_walk(capsule.index.headers, capsule.witnesses, cached, cur, fuel);
            let signed = walk.signature->Some_0;
            &&& walk.complete
            &&& walk.chain.len() >= 1
            &&& spec_hash_record_header(walk.chain[0]) == cur
            &&& spec_hash_record_header(walk.chain.last()) == signed.0
            &&& ecdsa_accepts(signed.1, signed.0, writer_key)
            &&& forall|j: int| 1 <= j < walk.chain.len() ==> linked_at(walk.chain, j)
        }),
    decreases fuel,
{
    let headers = capsule.index.headers;
    let walk = proof_walk(headers, capsule.witnesses, cached, cur, fuel);
    assert(fuel > 0 && headers.dom().contains(cur) && !cached.contains(cur));
    match witness_of(capsule.witnesses, cur) {
        WitnessView::Signature(s) => {},
        WitnessView::NextRecordPtr(next, _) => {
            let rest = proof_walk(headers, capsule.witnesses, cached, next, (fuel - 1) as nat);
            lemma_signed_walk(capsule, writer_key, cached, next, (fuel - 1) as nat);
            assert(walk.chain =~= seq![headers[cur]] + rest.chain);
            assert(walk.chain.last() == rest.chain.last());
            assert forall|j: int| 1 <= j < walk.chain.len() implies linked_at(walk.chain, j) by {
                if j == 1 {
                    assert(walk.chain[1] == rest.chain[0]);
                    assert(rest.chain[0] == headers[next]) by {
                        lemma_walk_first(capsule, cached, next, (fuel - 1) as nat);
                    }
                } else {
                    assert(walk.chain[j] == rest.chain[j - 1]);
                    assert(walk.chain[j - 1] == rest.chain[j - 2]);
                    assert(linked_at(rest.chain, j - 1));
                }
            }
        },
        WitnessView::Unknown => {},
    }
}

/// What a walk that came to its end has found: the chain starts at the
/// header of the record, each later header points back to the one before,
/// and the last header is that of a record which carries the writer's
/// signature, or which the client has proven before.
pub proof fn lemma_complete_walk(
    capsule: CapsuleView,
    writer_key: Seq<u8>,
    cached: Set<crypto::Hash>,
    cur: crypto::Hash,
    fuel: nat,
)
    requires
        witnesses_sound(capsule, writer_key),
        proof_walk(capsule.index.headers, capsule.witnesses, cached, cur, fuel).complete,
    ensures
        ({
            let walk = proof_walk(capsule.index.headers, capsule.witnesses, cached, cur, fuel);
            &&& walk.chain.len() >= 1
            &&& spec_hash_record_header(walk.chain[0]) == cur
            &&& forall|j: int| 1 <= j < walk.chain.len() ==> linked_at(walk.chain, j)
            &&& match walk.signature {
                Some((name, sig)) => spec_hash_record_header(walk.chain.last()) == name
                    && ecdsa_accepts(sig, name, writer_key),
                None => cached.contains(spec_hash_record_header(walk.chain.last())),
            }
        }),
    decreases fuel,
{
    let headers = capsule.index.headers;
    let walk = proof_walk(headers, capsule.witnesses, cached, cur, fuel);
    assert(fuel > 0 && headers.dom().contains(cur));
    if !cached.contains(cur) {
        match witness_of(capsule.witnesses, cur) {
            WitnessView::Signature(s) => {},
            WitnessView::NextRecordPtr(next, _) => {
                let rest = proof_walk(headers, capsule.witnesses, cached, next, (fuel - 1) as nat);
                lemma_complete_walk(capsule, writer_key, cached, next, (fuel - 1) as nat);
                assert(walk.chain =~= seq![headers[cur]] + rest.chain);
                assert(walk.chain.last() == rest.chain.last());
                assert forall|j: int| 1 <= j < walk.chain.len() implies linked_at(
                    walk.chain,
                    j,
                ) by {
                    if j == 1 {
                        assert(walk.chain[1] == rest.chain[0]);
                        assert(rest.chain[0] == headers[next]) by {
                            lemma_walk_first(capsule, cached, next, (fuel - 1) as nat);
                        }
                    } else {
                        assert(walk.chain[j] == rest.chain[j - 1]);
                        assert(walk.chain[j - 1] == rest.chain[j - 2]);
                        assert(linked_at(rest.chain, j - 1));
                    }
                }
            },
            WitnessView::Unknown => {},
        }
    }
}

/// A proof that the server built to its end is accepted by a client that
/// holds as proven every name that the server takes it to hold: the chain is
/// linked, and it ends at a good signature or at a name that the client has
/// proven before.
pub proof fn lemma_complete_proof_accepted(
    capsule: CapsuleView,
    writer_key: Seq<u8>,
    server_cached: Set<crypto::Hash>,
    client_cached: Set<crypto::Hash>,
    target: crypto::Hash,
    fuel: nat,
)
    requires
        witnesses_sound(capsule, writer_key),
        server_cached.subset_of(client_cached),
        proof_walk(
            capsule.index.headers,
            capsule.witnesses,
            server_cached,
            target,
            fuel,
        ).complete,
    ensures
        ({
            let walk = proof_walk(
                capsule.index.headers,
                capsule.witnesses,
                server_cached,
                target,
                fuel,
            );
            proof_accepted(
                target,
                BestEffortProofView { chain: walk.chain, signature: walk.signature },
                writer_key,
                client_cached,
            )
        }),
{
    let walk = proof_walk(capsule.index.headers, capsule.witnesses, server_cached, target, fuel);
    let proof = BestEffortProofView { chain: walk.chain, signature: walk.signature };
    lemma_complete_walk(capsule, writer_key, server_cached, target, fuel);
    let known = known_names(proof, client_cached);
    let k = walk.chain.len() - 1;
    assert(walk.chain.last() == walk.chain[k]);
    assert(known.contains(spec_hash_record_header(walk.chain[k])));
    assert(leads_to_known(walk.chain, known, k));
}

/// Without a witness that leads to a signature, and without a name that
/// the client has proven before, the server builds no proof to its end: a
/// client that has proven nothing accepts none of what a walk without a
/// signature finds.
pub proof fn lemma_partial_proof_rejected(
    capsule: CapsuleView,
    writer_key: Seq<u8>,
    server_cached: Set<crypto::Hash>,
    target: crypto::Hash,
    fuel: nat,
)
    requires
        proof_walk(
            capsule.index.headers,
            capsule.witnesses,
            server_cached,
            target,
            fuel,
        ).signature is None,
    ensures
        ({
            let walk = proof_walk(
                capsule.index.headers,
                capsule.witnesses,
                server_cached,
                target,
                fuel,
            );
            !proof_accepted(
                target,
                BestEffortProofView { chain: walk.chain, signature: walk.signature },
                writer_key,
                Set::empty(),
            )
        }),
{
}

/// A walk that found anything starts with the stored header of the record.
pub proof fn lemma_walk_first(
    capsule: CapsuleView,
    cached: Set<crypto::Hash>,
    cur: crypto::Hash,
    fuel: nat,
)
    requires
        proof_walk(capsule.index.headers, capsule.witnesses, cached, cur, fuel).chain.len() > 0,
    ensures
        capsule.index.headers.dom().contains(cur),
        proof_walk(capsule.index.headers, capsule.witnesses, cached, cur, fuel).chain[0]
            == capsule.index.headers[cur],
{
}

/// A proof that the server built up to a writer signature is accepted by
/// every client, whatever the client has proven before: the server's
/// witnesses are sound, so the chain is linked and the signature is good.
pub proof fn lemma_signed_proof_accepted(
    capsule: CapsuleView,
    writer_key: Seq<u8>,
    server_cached: Set<crypto::Hash>,
    client_cached: Set<crypto::Hash>,
    target: crypto::Hash,
    fuel: nat,
)
    requires
        witnesses_sound(capsule, writer_key),
        proof_walk(
            capsule.index.headers,
            capsule.witnesses,
            server_cached,
            target,
            fuel,
        ).signature is Some,
    ensures
        ({
            let walk = proof_walk(
                capsule.index.headers,
                capsule.witnesses,
                server_cached,
                target,
                fuel,
            );
            proof_accepted(
                target,
                BestEffortProofView { chain: walk.chain, signature: walk.signature },
                writer_key,
                client_cached,
            )
        }),
{
    let walk = proof_walk(capsule.index.headers, capsule.witnesses, server_cached, target, fuel);
    let proof = BestEffortProofView { chain: walk.chain, signature: walk.signature };
    lemma_signed_walk(capsule, writer_key, server_cached, target, fuel);
    let signed = walk.signature->Some_0;
    if signed.0 != target {
        let known = known_names(proof, client_cached);
        let k = walk.chain.len() - 1;
        assert(walk.chain.last() == walk.chain[k]);
        assert(k >= 1) by {
            if k == 0 {
                assert(walk.chain[0] == walk.chain.last());
            }
        }
        assert(leads_to_known(walk.chain, known, k));
    }
}

/// A client that accepts a proof has seen a good signature in it, or holds
/// one of the names of its chain as proven before.
pub proof fn lemma_accepted_needs_witness(
    target: crypto::Hash,
    proof: BestEffortProofView,
    writer_key: Seq<u8>,
    cached: Set<crypto::Hash>,
)
    requires
        proof_accepted(target, proof, writer_key, cached),
    ensures
        (proof.signature matches Some((name, sig)) && ecdsa_accepts(sig, name, writer_key)) || (
        exists|k: int|
            0 <= k < proof.chain.len() && cached.contains(
                spec_hash_record_header(#[trigger] proof.chain[k]),
            )),
{
    if proof.signature is None {
        let k = choose|k: int| leads_to_known(proof.chain, known_names(proof, cached), k);
        assert(cached.contains(spec_hash_record_header(proof.chain[k])));
    }
}

/// Whether `path` leads from `name` to a trusted name: the first header of
/// the path points back to `name`, each further header points back to the
/// header before it, and the name of the last header is trusted. Without
/// headers, `name` itself is trusted.
pub open spec fn descends_by(
    trusted: Set<crypto::Hash>,
    name: crypto::Hash,
    path: Seq<RecordHeaderView>,
) -> bool
    decreases path.len(),
{
    if path.len() == 0 {
        trusted.contains(name)
    } else {
        path[0].ptrs().contains(name) && descends_by(
            trusted,
            spec_hash_record_header(path[0]),
            path.skip(1),
        )
    }
}

/// Whether `name` is an ancestor of a record with a trusted name, or is
/// trusted itself.
pub open spec fn witnessed(trusted: Set<crypto::Hash>, name: crypto::Hash) -> bool {
    exists|path: Seq<RecordHeaderView>| descends_by(trusted, name, path)
}

/// What is witnessed stays witnessed when more is trusted.
pub proof fn lemma_descends_mono(
    trusted: Set<crypto::Hash>,
    more: Set<crypto::Hash>,
    name: crypto::Hash,
    path: Seq<RecordHeaderView>,
)
    requires
        trusted.subset_of(more),
        descends_by(trusted, name, path),
    ensures
        descends_by(more, name, path),
    decreases path.len(),
{
    if path.len() > 0 {
        lemma_descends_mono(trusted, more, spec_hash_record_header(path[0]), path.skip(1));
    }
}

/// The names that a client trusts after it has checked the signature of a
/// proof: those it trusted before, and the name that a good signature is
/// over.
pub open spec fn trusted_after(
    trusted: Set<crypto::Hash>,
    proof: BestEffortProofView,
    writer_key: Seq<u8>,
) -> Set<crypto::Hash> {
    match proof.signature {
        Some((name, sig)) => if ecdsa_accepts(sig, name, writer_key) {
            trusted.insert(name)
        } else {
            trusted
        },
        None => trusted,
    }
}

/// Every header of a chain up to the one with a known name is witnessed.
proof fn lemma_chain_witnessed(
    trusted: Set<crypto::Hash>,
    chain: Seq<RecordHeaderView>,
    known: Set<crypto::Hash>,
    k: int,
    j: int,
)
    requires
        0 <= j <= k < chain.len(),
        known.contains(spec_hash_record_header(chain[k])),
        forall|i: int| 1 <= i <= k ==> linked_at(chain, i),
        forall|n: crypto::Hash| known.contains(n) ==> witnessed(trusted, n),
    ensures
        witnessed(trusted, spec_hash_record_header(chain[j])),
    decreases k - j,
{
    if j < k {
        lemma_chain_witnessed(trusted, chain, known, k, j + 1);
        let name_above = spec_hash_record_header(chain[j + 1]);
        let above = choose|path: Seq<RecordHeaderView>| descends_by(trusted, name_above, path);
        let path = seq![chain[j + 1]] + above;
        assert(path[0] == chain[j + 1]);
        assert(path.skip(1) =~= above);
        assert(linked_at(chain, j + 1));
        assert(descends_by(trusted, spec_hash_record_header(chain[j]), path));
    }
}

/// A client that has proven nothing but ancestors of records with trusted
/// names accepts a proof only for such an ancestor, where the name under a
/// good signature of the proof counts as trusted. Whatever it then holds as
/// newly proven is such an ancestor too.
pub proof fn lemma_accepted_is_witnessed(
    trusted: Set<crypto::Hash>,
    target: crypto::Hash,
    proof: BestEffortProofView,
    writer_key: Seq<u8>,
    cached: Set<crypto::Hash>,
)
    requires
        forall|n: crypto::Hash| cached.contains(n) ==> witnessed(trusted, n),
    ensures
        proof_accepted(target, proof, writer_key, cached) ==> witnessed(
            trusted_after(trusted, proof, writer_key),
            target,
        ),
        forall|n: crypto::Hash|
            newly_proven(target, proof, writer_key, cached).contains(n) ==> witnessed(
                trusted_after(trusted, proof, writer_key),
                n,
            ),
{
    let more = trusted_after(trusted, proof, writer_key);
    let known = known_names(proof, cached);
    assert forall|n: crypto::Hash| cached.contains(n) implies witnessed(more, n) by {
        let path = choose|path: Seq<RecordHeaderView>| descends_by(trusted, n, path);
        lemma_descends_mono(trusted, more, n, path);
    }
    if signature_good(proof, writer_key) {
        assert forall|n: crypto::Hash| known.contains(n) implies witnessed(more, n) by {
            if !cached.contains(n) {
                assert(descends_by(more, n, Seq::<RecordHeaderView>::empty()));
            }
        }
        if chain_proves(target, proof.chain, known) {
            let some = choose|k: int| leads_to_known(proof.chain, known, k);
            lemma_first_known_exists(proof.chain, known, some);
            let k = first_known(proof.chain, known);
            assert forall|j: int| 0 <= j <= k implies witnessed(
                more,
                spec_hash_record_header(#[trigger] proof.chain[j]),
            ) by {
                lemma_chain_witnessed(more, proof.chain, known, k, j);
            }
        }
    }
    assert forall|n: crypto::Hash|
        newly_proven(target, proof, writer_key, cached).contains(n) implies witnessed(more, n) by {
        if proof.signature matches Some((name, sig)) && ecdsa_accepts(sig, name, writer_key) && n
            == name {
            assert(descends_by(more, n, Seq::<RecordHeaderView>::empty()));
        }
    }
    if proof_accepted(target, proof, writer_key, cached) {
        if proof.signature matches Some((name, _)) && name == target {
            assert(descends_by(more, target, Seq::<RecordHeaderView>::empty()));
        }
    }
}

/// Where a chain leads to a known name at all, it does so at a first
/// header.
proof fn lemma_first_known_exists(
    chain: Seq<RecordHeaderView>,
    known: Set<crypto::Hash>,
    k: int,
)
    requires
        leads_to_known(chain, known, k),
    ensures
        leads_to_known(chain, known, first_known(chain, known)),
        forall|j: int|
            0 <= j < first_known(chain, known) ==> !known.contains(
                spec_hash_record_header(#[trigger] chain[j]),
            ),
    decreases k,
{
    if exists|j: int| 0 <= j < k && known.contains(spec_hash_record_header(#[trigger] chain[j])) {
        let j = choose|j: int|
            0 <= j < k && known.contains(spec_hash_record_header(#[trigger] chain[j]));
        assert(leads_to_known(chain, known, j));
        lemma_first_known_exists(chain, known, j);
    } else {
        assert(leads_to_known(chain, known, k) && forall|j: int|
            0 <= j < k ==> !known.contains(spec_hash_record_header(#[trigger] chain[j])));
    }
}

} // verus!
