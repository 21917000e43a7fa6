//! The hash search itself: one worker's encode–hash–compare loop over its
//! partition of the candidate integers.
//!
//! A worker owns the arithmetic progression `id + i * n` of candidate
//! integers, encodes each candidate, hashes `prefix || nonce` with SHA-256,
//! and keeps the candidate whose digest is the smallest seen so far, in the
//! big-endian byte-wise order.  On every strict improvement it reports the
//! new local minimum on an optional channel, and it reports exhaustion once
//! when it stops — at the iteration cap, when a candidate no longer fits the
//! encoding capacity, or when the candidate integers outgrow the machine
//! word.

use crate::codec::{encode64, lemma_encode64_ascii, lemma_encode64_len, push_nonce};
use crate::order::{
    bytes_le, bytes_lt, lemma_bytes_le_transitive, lemma_bytes_lt_irreflexive,
    lemma_bytes_lt_le_transitive, lemma_bytes_lt_transitive,
};
use crate::partition::nonce_value;
use crossbeam::channel::Sender;
use sha2::{Digest, Sha256};
use vstd::prelude::*;
use vstd::slice::slice_to_vec;
use vstd::string::{StrSliceExecFns, StringExecFns};
use vstd::utf8::encode_utf8;

verus! {

/// A candidate: a digest and the encoded nonce string that produced it.
pub type WithNonce = (Vec<u8>, String);

/// What a worker tells the aggregator: its ordinal together with a new
/// local minimum, or `None` when the worker has exhausted its partition.
pub type Report = (usize, Option<WithNonce>);

/// The SHA-256 digest of a byte sequence.  The digest is a function of the
/// input bytes alone; nothing further is assumed about it.
pub uninterp spec fn sha256_of(m: Seq<u8>) -> Seq<u8>;

/// Relies on `sha2::Sha256::digest`: the 32-byte SHA-256 digest of the
/// input, a function of the input bytes alone.
#[verifier::external_body]
fn sha256(bytes: &Vec<u8>) -> (r: Vec<u8>)
    ensures
        r@ == sha256_of(bytes@),
        r@.len() == 32,
{
    Sha256::digest(bytes.as_slice()).as_slice().to_vec()
}

#[verifier::external_type_specification]
#[verifier::external_body]
#[verifier::reject_recursive_types(T)]
pub struct ExSender<T>(Sender<T>);

/// Relies on `crossbeam_channel::Sender::send`: on an unbounded channel the
/// message is delivered when the receiver still exists and is dropped
/// otherwise; neither outcome is reported here, as the search ignores both.
#[verifier::external_body]
fn send_report(sender: &Sender<Report>, report: Report) {
    let _ = sender.send(report);
}

/// Relies on `String::from_utf8`: bytes below 128 are valid UTF-8 and
/// decode to the characters with those code points.
#[verifier::external_body]
fn ascii_to_string(bytes: Vec<u8>) -> (r: String)
    requires
        forall|i: int| 0 <= i < bytes@.len() ==> bytes@[i] < 128,
    ensures
        r@ == bytes@.map_values(|b: u8| b as char),
{
    String::from_utf8(bytes).unwrap()
}

/// The characters of a sequence of ASCII bytes.
pub open spec fn chars_of(bytes: Seq<u8>) -> Seq<char> {
    bytes.map_values(|b: u8| b as char)
}

/// The text every preimage starts from: the username alone, or
/// `username/message` when a message is present.
pub open spec fn prefix_text(username: Seq<char>, message: Option<Seq<char>>) -> Seq<char> {
    match message {
        Some(m) => username + seq!['/'] + m,
        None => username,
    }
}

/// The byte prefix shared by all preimages: the prefix text in UTF-8,
/// followed by one `/` that separates it from the nonce.
pub open spec fn search_prefix(username: Seq<char>, message: Option<Seq<char>>) -> Seq<u8> {
    encode_utf8(prefix_text(username, message)) + seq![47u8]
}

/// How many symbols an encoded nonce may take: the preimage buffer leaves
/// 64 bytes for message and nonce together.
pub open spec fn capacity_spec(message: Option<Seq<char>>) -> int {
    match message {
        Some(m) => 64 - encode_utf8(m).len(),
        None => 64,
    }
}

/// Whether iteration `i` of worker `w` of `n` yields a usable candidate:
/// one that fits the machine word and whose encoding fits the capacity.
pub open spec fn fits(w: nat, n: nat, i: nat, cap: int) -> bool {
    &&& nonce_value(w, n, i) <= u64::MAX
    &&& encode64(nonce_value(w, n, i)).len() <= cap
}

/// Whether a worker that may run `limit` iterations stops after exactly
/// `steps` completed iterations: every earlier iteration fit, and either
/// the cap is reached or the next candidate does not fit.
pub open spec fn stops_at(w: nat, n: nat, cap: int, limit: Option<u64>, steps: nat) -> bool {
    &&& forall|i: nat| i < steps ==> fits(w, n, i, cap)
    &&& match limit {
        Some(c) => steps <= c && (steps == c || !fits(w, n, steps, cap)),
        None => !fits(w, n, steps, cap),
    }
}

/// The largest digest value: 32 bytes of `0xFF`, the initial local minimum.
pub open spec fn max_digest() -> Seq<u8> {
    Seq::new(32, |i: int| 255u8)
}

/// The digest a worker computes at iteration `i`.
pub open spec fn step_digest(prefix: Seq<u8>, w: nat, n: nat, i: nat) -> Seq<u8> {
    sha256_of(prefix + encode64(nonce_value(w, n, i)))
}

/// The worker's local minimum after `steps` iterations: digest and encoded
/// nonce of the first-found smallest candidate, starting from the maximal
/// digest and the empty nonce.  A tie never replaces the incumbent.
pub open spec fn min_candidate(prefix: Seq<u8>, w: nat, n: nat, steps: nat) -> (Seq<u8>, Seq<u8>)
    decreases steps,
{
    if steps == 0 {
        (max_digest(), Seq::<u8>::empty())
    } else {
        let prev = min_candidate(prefix, w, n, (steps - 1) as nat);
        let d = step_digest(prefix, w, n, (steps - 1) as nat);
        if bytes_lt(d, prev.0) {
            (d, encode64(nonce_value(w, n, (steps - 1) as nat)))
        } else {
            prev
        }
    }
}

/// The maximal candidate: the largest digest and the empty nonce.
pub fn max() -> (r: WithNonce)
    ensures
        r.0@ == max_digest(),
        r.1@ == Seq::<char>::empty(),
{
    let mut h: Vec<u8> = Vec::new();
    let mut k: usize = 0;
    while k < 32
        invariant
            k <= 32,
            h@.len() == k,
            forall|i: int| 0 <= i < k ==> h@[i] == 255u8,
        decreases 32 - k,
    {
        h.push(255);
        k = k + 1;
    }
    assert(h@ =~= max_digest());
    (h, String::new())
}

/// Whether digest `a` is strictly smaller than digest `b` in the
/// big-endian byte-wise order.
pub fn is_less(a: &Vec<u8>, b: &Vec<u8>) -> (r: bool)
    ensures
        r == bytes_lt(a@, b@),
{
    let mut k: usize = 0;
    assert(a@.skip(0) =~= a@);
    assert(b@.skip(0) =~= b@);
    while k < a.len() && k < b.len()
        invariant
            k <= a@.len(),
            k <= b@.len(),
            bytes_lt(a@, b@) == bytes_lt(a@.skip(k as int), b@.skip(k as int)),
        decreases a@.len() - k,
    {
        let x = a[k];
        let y = b[k];
        proof {
            assert(a@.skip(k as int)[0] == a@[k as int]);
            assert(b@.skip(k as int)[0] == b@[k as int]);
        }
        if x != y {
            return x < y;
        }
        proof {
            assert(a@.skip(k as int).drop_first() =~= a@.skip(k as int + 1));
            assert(b@.skip(k as int).drop_first() =~= b@.skip(k as int + 1));
        }
        k = k + 1;
    }
    proof {
        if k < a@.len() {
            assert(b@.skip(k as int).len() == 0);
        } else {
            assert(a@.skip(k as int).len() == 0);
        }
    }
    a.len() < b.len()
}

/// The shared prefix text of a run: the username, or `username/message`.
pub fn concat(username: String, message: Option<String>) -> (r: String)
    ensures
        r@ == prefix_text(username@, message.deep_view()),
{
    let ghost uname = username@;
    let mut result = username;
    match &message {
        Some(m) => {
            proof {
                reveal_strlit("/");
            }
            result.append("/");
            result.append(m.as_str());
            assert(result@ =~= uname + seq!['/'] + m@);
        },
        None => {},
    }
    result
}

/// Searches this worker's partition for the candidate with the smallest
/// digest.
///
/// Worker `id` of `n` walks the candidates `id + i * n`, encodes each,
/// hashes `prefix || nonce`, and keeps the first-found smallest digest.  It
/// stops at the iteration cap when one is given, or as soon as a candidate
/// is unrepresentable — its encoding outgrows the capacity left by the
/// message, or the candidate itself outgrows the machine word.  When a
/// report channel is supplied, every strict improvement is reported once,
/// and one exhaustion report follows when the worker stops, whatever
/// stopped it.  The returned pair is the final local minimum.
#[verifier::loop_isolation(false)]
pub fn worker(
    id: usize,
    n: usize,
    username: String,
    message: Option<String>,
    iterations: Option<u64>,
    results: Option<Sender<Report>>,
) -> (r: WithNonce)
    requires
        1 <= n,
        id < n,
        message matches Some(m) ==> encode_utf8(m@).len() <= 64,
    ensures
        r.0@.len() == 32,
        exists|steps: nat|
            {
                &&& stops_at(
                    id as nat,
                    n as nat,
                    capacity_spec(message.deep_view()),
                    iterations,
                    steps,
                )
                &&& r.0@ == min_candidate(
                    search_prefix(username@, message.deep_view()),
                    id as nat,
                    n as nat,
                    steps,
                ).0
                &&& r.1@ == chars_of(
                    min_candidate(
                        search_prefix(username@, message.deep_view()),
                        id as nat,
                        n as nat,
                        steps,
                    ).1,
                )
            },
{
    let ghost msg_view = message.deep_view();
    let ghost uname = username@;
    let capacity: usize = match &message {
        Some(m) => 64 - m.as_str().len(),
        None => 64,
    };
    let mut min: WithNonce = max();
    let prefix_string = concat(username, message);
    let mut preimage: Vec<u8> = prefix_string.as_str().as_bytes_vec();
    preimage.push(47);
    let ghost prefix_seq = search_prefix(uname, msg_view);
    assert(preimage@ =~= prefix_seq);
    let prefix_len = preimage.len();
    let mut noncebuf: Vec<u8> = Vec::new();

    let n64: u64 = n as u64;
    let mut i: u64 = 0;
    let mut cur: u64 = id as u64;
    assert(chars_of(Seq::<u8>::empty()) =~= Seq::<char>::empty());

    loop
        invariant
            1 <= n64 <= usize::MAX,
            n64 == n as u64,
            id < n,
            cur as nat == nonce_value(id as nat, n as nat, i as nat),
            forall|j: nat| j < i as nat ==> fits(id as nat, n as nat, j, capacity as int),
            min.0@.len() == 32,
            min.0@ == min_candidate(prefix_seq, id as nat, n as nat, i as nat).0,
            min.1@ == chars_of(min_candidate(prefix_seq, id as nat, n as nat, i as nat).1),
            noncebuf@ == Seq::<u8>::empty(),
            preimage@ == prefix_seq,
            prefix_len == prefix_seq.len(),
            capacity as int == capacity_spec(msg_view),
            prefix_seq == search_prefix(uname, msg_view),
            iterations matches Some(c) ==> i <= c,
        decreases u64::MAX - cur,
    {
        if let Some(c) = iterations {
            if i == c {
                proof {
                    assert(stops_at(id as nat, n as nat, capacity as int, iterations, i as nat));
                }
                match &results {
                    Some(r) => send_report(r, (id, None)),
                    None => {},
                }
                return min;
            }
        }
        let fit = push_nonce(&mut noncebuf, cur, capacity);
        if !fit {
            proof {
                assert(stops_at(id as nat, n as nat, capacity as int, iterations, i as nat));
            }
            match &results {
                Some(r) => send_report(r, (id, None)),
                None => {},
            }
            return min;
        }
        let mut k: usize = 0;
        while k < noncebuf.len()
            invariant
                k <= noncebuf@.len(),
                preimage@ == prefix_seq + noncebuf@.subrange(0, k as int),
            decreases noncebuf@.len() - k,
        {
            let b = noncebuf[k];
            preimage.push(b);
            proof {
                assert(preimage@ =~= prefix_seq + noncebuf@.subrange(0, k as int + 1));
            }
            k = k + 1;
        }
        assert(preimage@ =~= prefix_seq + noncebuf@);
        let digest = sha256(&preimage);
        proof {
            assert(digest@ == step_digest(prefix_seq, id as nat, n as nat, i as nat));
        }
        if is_less(&digest, &min.0) {
            proof {
                lemma_encode64_ascii(cur as nat);
            }
            let nonce_string = ascii_to_string(clone_bytes(&noncebuf));
            match &results {
                Some(r) => send_report(
                    r,
                    (id, Some((clone_bytes(&digest), nonce_string.clone()))),
                ),
                None => {},
            }
            min = (digest, nonce_string);
        }
        noncebuf.clear();
        preimage.truncate(prefix_len);
        proof {
            assert(preimage@ =~= prefix_seq);
            assert(fits(id as nat, n as nat, i as nat, capacity as int));
            assert(min.0@ == min_candidate(prefix_seq, id as nat, n as nat, i as nat + 1).0);
            assert(min.1@ == chars_of(
                min_candidate(prefix_seq, id as nat, n as nat, i as nat + 1).1,
            ));
        }
        match cur.checked_add(n64) {
            Some(nx) => {
                proof {
                    assert((i as nat + 1) * (n as nat) == (i as nat) * (n as nat) + (n as nat))
                        by (nonlinear_arith);
                    assert((i as nat) * (n as nat) >= i as nat) by (nonlinear_arith)
                        requires
                            1 <= n as nat,
                    ;
                    assert(i < u64::MAX);
                }
                cur = nx;
                i = i + 1;
            },
            None => {
                proof {
                    assert((i as nat + 1) * (n as nat) == (i as nat) * (n as nat) + (n as nat))
                        by (nonlinear_arith);
                    assert(nonce_value(id as nat, n as nat, i as nat + 1) > u64::MAX);
                    assert(stops_at(
                        id as nat,
                        n as nat,
                        capacity as int,
                        iterations,
                        i as nat + 1,
                    ));
                }
                match &results {
                    Some(r) => send_report(r, (id, None)),
                    None => {},
                }
                return min;
            },
        }
    }
}

/// Whether the candidate of iteration `i` strictly improves on the local
/// minimum reached before it — exactly when the worker emits a report.
pub open spec fn improved_at(prefix: Seq<u8>, w: nat, n: nat, i: nat) -> bool {
    bytes_lt(step_digest(prefix, w, n, i), min_candidate(prefix, w, n, i).0)
}

/// A worker's local minimum never increases as the search runs.
pub proof fn lemma_min_candidate_monotonic(prefix: Seq<u8>, w: nat, n: nat, s1: nat, s2: nat)
    requires
        s1 <= s2,
    ensures
        bytes_le(min_candidate(prefix, w, n, s2).0, min_candidate(prefix, w, n, s1).0),
    decreases s2 - s1,
{
    if s1 == s2 {
        lemma_bytes_lt_irreflexive(min_candidate(prefix, w, n, s1).0);
    } else {
        lemma_min_candidate_monotonic(prefix, w, n, s1, (s2 - 1) as nat);
        let prev = min_candidate(prefix, w, n, (s2 - 1) as nat).0;
        let d = step_digest(prefix, w, n, (s2 - 1) as nat);
        if bytes_lt(d, prev) {
            if bytes_lt(prev, d) {
                lemma_bytes_lt_transitive(d, prev, d);
                lemma_bytes_lt_irreflexive(d);
            }
            lemma_bytes_le_transitive(d, prev, min_candidate(prefix, w, n, s1).0);
        } else {
            lemma_bytes_lt_irreflexive(prev);
        }
    }
}

/// The sequence of digests a single worker reports as improvements is
/// strictly decreasing: a later improvement beats every earlier one.
pub proof fn lemma_improvements_strictly_decrease(
    prefix: Seq<u8>,
    w: nat,
    n: nat,
    i1: nat,
    i2: nat,
)
    requires
        i1 < i2,
        improved_at(prefix, w, n, i1),
        improved_at(prefix, w, n, i2),
    ensures
        bytes_lt(step_digest(prefix, w, n, i2), step_digest(prefix, w, n, i1)),
{
    assert(min_candidate(prefix, w, n, i1 + 1).0 == step_digest(prefix, w, n, i1));
    lemma_min_candidate_monotonic(prefix, w, n, i1 + 1, i2);
    lemma_bytes_lt_le_transitive(
        step_digest(prefix, w, n, i2),
        min_candidate(prefix, w, n, i2).0,
        step_digest(prefix, w, n, i1),
    );
}

/// A search stops after exactly one number of iterations: with the same
/// worker, count, capacity and cap, two stopping points coincide.
pub proof fn lemma_stops_at_unique(
    w: nat,
    n: nat,
    cap: int,
    limit: Option<u64>,
    s1: nat,
    s2: nat,
)
    requires
        stops_at(w, n, cap, limit, s1),
        stops_at(w, n, cap, limit, s2),
    ensures
        s1 == s2,
{
    if s1 < s2 {
        assert(fits(w, n, s1, cap));
    }
    if s2 < s1 {
        assert(fits(w, n, s2, cap));
    }
}

/// Determinism: a run with a fixed worker, worker count, prefix, capacity
/// and iteration cap always ends in the same final candidate.
pub proof fn lemma_search_deterministic(
    prefix: Seq<u8>,
    w: nat,
    n: nat,
    cap: int,
    limit: Option<u64>,
    s1: nat,
    s2: nat,
)
    requires
        stops_at(w, n, cap, limit, s1),
        stops_at(w, n, cap, limit, s2),
    ensures
        min_candidate(prefix, w, n, s1) == min_candidate(prefix, w, n, s2),
{
    lemma_stops_at_unique(w, n, cap, limit, s1, s2);
}

/// With no capacity left for even one symbol, the search stops before its
/// first hash: the stopping point is zero and the minimum is still the
/// initial maximal candidate.
pub proof fn lemma_zero_capacity(prefix: Seq<u8>, w: nat, n: nat, limit: Option<u64>)
    ensures
        stops_at(w, n, 0, limit, 0),
        min_candidate(prefix, w, n, 0) == (max_digest(), Seq::<u8>::empty()),
{
    lemma_encode64_len(nonce_value(w, n, 0));
}

/// A verified copy of a byte vector.
pub(crate) fn clone_bytes(v: &Vec<u8>) -> (r: Vec<u8>)
    ensures
        r@ == v@,
{
    slice_to_vec(v.as_slice())
}

} // verus!
