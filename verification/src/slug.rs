//! Heading slugs.
//!
//! A slug is derived from the text of a heading: every text-bearing token
//! between a heading's start and its end is lowercased (ASCII only), spaces
//! become hyphens, and the pieces are concatenated in event order.  Within
//! one document slugs are deduplicated: a candidate that is already taken
//! gets the first numeric suffix `-1`, `-2`, ... whose result is still free.

use vstd::prelude::*;

use crate::bytes::append_bytes;
use crate::bytes::bytes_seq_view;
use crate::bytes::contains_vec;
use crate::bytes::copy_bytes;
use crate::tokens::parse_tokens;
use crate::tokens::Token;
use crate::tokens::TokenView;
use crate::tokens::tokens_of;
use crate::tokens::tokens_view;

verus! {

/// How one byte of heading text is normalized: ASCII upper case letters are
/// lowered, a space becomes a hyphen, every other byte is kept.
pub open spec fn normalize_byte(b: u8) -> u8 {
    if b == 32 {
        45
    } else if 65 <= b && b <= 90 {
        (b + 32) as u8
    } else {
        b
    }
}

/// The normalized form of a piece of heading text.
pub open spec fn normalize_seq(s: Seq<u8>) -> Seq<u8> {
    s.map_values(|b: u8| normalize_byte(b))
}

/// Appends the normalized form of `src` to `dst`.
pub fn normalize_append(dst: &mut Vec<u8>, src: &[u8])
    ensures
        final(dst)@ == old(dst)@ + normalize_seq(src@),
{
    let n = src.len();
    let mut i: usize = 0;
    while i < n
        invariant
            i <= n,
            n == src@.len(),
            dst@ == old(dst)@ + normalize_seq(src@.subrange(0, i as int)),
        decreases n - i,
    {
        let b = src[i];
        if b == 32 {
            dst.push(45);
        } else if 65 <= b && b <= 90 {
            dst.push(b + 32);
        } else {
            dst.push(b);
        }
        i = i + 1;
        assert(dst@ =~= old(dst)@ + normalize_seq(src@.subrange(0, i as int)));
    }
    assert(src@.subrange(0, n as int) == src@);
}

/// The decimal digits of `n`, most significant first.
pub open spec fn dec_of(n: nat) -> Seq<u8>
    decreases n,
{
    if n < 10 {
        seq![(48 + n) as u8]
    } else {
        dec_of(n / 10).push((48 + n % 10) as u8)
    }
}

/// A decimal representation is never empty, and has one digit exactly for
/// the numbers below ten.
pub proof fn lemma_dec_of_len(n: nat)
    ensures
        dec_of(n).len() >= 1,
        (n < 10) <==> (dec_of(n).len() == 1),
    decreases n,
{
    if n >= 10 {
        lemma_dec_of_len(n / 10);
    }
}

/// Distinct numbers have distinct decimal representations.
pub proof fn lemma_dec_of_injective(a: nat, b: nat)
    requires
        dec_of(a) == dec_of(b),
    ensures
        a == b,
    decreases a,
{
    lemma_dec_of_len(a);
    lemma_dec_of_len(b);
    assert(dec_of(a).len() == dec_of(b).len());
    if a < 10 && b < 10 {
        assert(dec_of(a) == seq![(48 + a) as u8]);
        assert(dec_of(b) == seq![(48 + b) as u8]);
        assert(dec_of(a)[0] == dec_of(b)[0]);
        assert(seq![(48 + a) as u8][0] == (48 + a) as u8);
        assert(seq![(48 + b) as u8][0] == (48 + b) as u8);
        assert(((48 + a) as u8) == ((48 + b) as u8));
        assert((48 + a) as u8 as nat == 48 + a);
        assert((48 + b) as u8 as nat == 48 + b);
        assert(a == b);
    } else if a >= 10 && b >= 10 {
        assert(dec_of(a) == dec_of(a / 10).push((48 + a % 10) as u8));
        assert(dec_of(b) == dec_of(b / 10).push((48 + b % 10) as u8));
        assert(dec_of(a).last() == (48 + a % 10) as u8);
        assert(dec_of(b).last() == (48 + b % 10) as u8);
        assert(0 <= a % 10 < 10 && 0 <= b % 10 < 10);
        assert((48 + a % 10) as u8 as nat == 48 + a % 10);
        assert((48 + b % 10) as u8 as nat == 48 + b % 10);
        assert(a % 10 == b % 10);
        assert(dec_of(a).drop_last() =~= dec_of(a / 10));
        assert(dec_of(b).drop_last() =~= dec_of(b / 10));
        lemma_dec_of_injective(a / 10, b / 10);
        assert(a == 10 * (a / 10) + a % 10) by (nonlinear_arith);
        assert(b == 10 * (b / 10) + b % 10) by (nonlinear_arith);
        assert(a == b);
    } else {
        assert(dec_of(a).len() == dec_of(b).len());
        assert(a == b);
    }
}

/// The `k`-th candidate for a slug: the candidate itself for `k == 0`, and
/// the candidate with the numeric suffix `-k` for `k >= 1`.
pub open spec fn suffixed(c: Seq<u8>, k: nat) -> Seq<u8> {
    if k == 0 {
        c
    } else {
        c + seq![45u8] + dec_of(k)
    }
}

/// Distinct suffix numbers give distinct candidates.
pub proof fn lemma_suffixed_injective(c: Seq<u8>, i: nat, j: nat)
    requires
        suffixed(c, i) == suffixed(c, j),
    ensures
        i == j,
{
    lemma_dec_of_len(i);
    lemma_dec_of_len(j);
    if i == 0 && j != 0 {
        assert(suffixed(c, j).len() > c.len());
    } else if i != 0 && j == 0 {
        assert(suffixed(c, i).len() > c.len());
    } else if i != 0 && j != 0 {
        let n = c.len() as int;
        assert(dec_of(i) =~= suffixed(c, i).subrange(n + 1, suffixed(c, i).len() as int));
        assert(dec_of(j) =~= suffixed(c, j).subrange(n + 1, suffixed(c, j).len() as int));
        lemma_dec_of_injective(i, j);
    }
}

/// `k` is the first suffix number whose candidate is not yet taken.
pub open spec fn is_first_free(c: Seq<u8>, taken: Seq<Seq<u8>>, k: nat) -> bool {
    &&& !taken.contains(suffixed(c, k))
    &&& forall|j: nat| j < k ==> taken.contains(suffixed(c, j))
}

/// The slug assigned to candidate `c` when the slugs `taken` are already
/// assigned: the first candidate in the probe order `c`, `c-1`, `c-2`, ...
/// that is still free.
pub open spec fn pick_slug(c: Seq<u8>, taken: Seq<Seq<u8>>) -> Seq<u8> {
    suffixed(c, choose|k: nat| is_first_free(c, taken, k))
}

/// Among the candidates numbered `0 ..= n` at least one is missing from a
/// finite set of at most `n` taken slugs.
proof fn lemma_free_in_set(c: Seq<u8>, s: Set<Seq<u8>>, n: nat)
    requires
        s.finite(),
        s.len() <= n,
    ensures
        exists|k: nat| k <= n && !s.contains(suffixed(c, k)),
    decreases n,
{
    broadcast use vstd::set::group_set_axioms;

    if s.contains(suffixed(c, n)) {
        let s2 = s.remove(suffixed(c, n));
        assert(s.len() >= 1);
        lemma_free_in_set(c, s2, (n - 1) as nat);
        let k = choose|k: nat| k <= n - 1 && !s2.contains(suffixed(c, k));
        if s.contains(suffixed(c, k)) {
            assert(suffixed(c, k) != suffixed(c, n)) by {
                if suffixed(c, k) == suffixed(c, n) {
                    lemma_suffixed_injective(c, k, n);
                }
            }
            assert(s2.contains(suffixed(c, k)));
        }
        assert(k <= n && !s.contains(suffixed(c, k)));
    } else {
        assert(n <= n && !s.contains(suffixed(c, n)));
    }
}

/// Some candidate with suffix number at most `taken.len()` is free.
pub proof fn lemma_free_slug_exists(c: Seq<u8>, taken: Seq<Seq<u8>>)
    ensures
        exists|k: nat| k <= taken.len() && !taken.contains(suffixed(c, k)),
{
    broadcast use vstd::seq_lib::seq_to_set_is_finite;

    let s = taken.to_set();
    taken.lemma_cardinality_of_set();
    lemma_free_in_set(c, s, taken.len());
    let k = choose|k: nat| k <= taken.len() && !s.contains(suffixed(c, k));
    assert(!taken.contains(suffixed(c, k)));
}

/// If some candidate is free then a first free one exists.
pub proof fn lemma_first_free_exists(c: Seq<u8>, taken: Seq<Seq<u8>>, k: nat)
    requires
        !taken.contains(suffixed(c, k)),
    ensures
        exists|j: nat| is_first_free(c, taken, j),
    decreases k,
{
    if forall|j: nat| j < k ==> taken.contains(suffixed(c, j)) {
        assert(is_first_free(c, taken, k));
    } else {
        let j = choose|j: nat| j < k && !taken.contains(suffixed(c, j));
        lemma_first_free_exists(c, taken, j);
    }
}

/// The first free suffix number is unique.
pub proof fn lemma_first_free_unique(c: Seq<u8>, taken: Seq<Seq<u8>>, j1: nat, j2: nat)
    requires
        is_first_free(c, taken, j1),
        is_first_free(c, taken, j2),
    ensures
        j1 == j2,
{
    if j1 < j2 {
        assert(taken.contains(suffixed(c, j1)));
    }
    if j2 < j1 {
        assert(taken.contains(suffixed(c, j2)));
    }
}

/// The assigned slug is never among the already taken ones.
pub proof fn lemma_pick_slug_free(c: Seq<u8>, taken: Seq<Seq<u8>>)
    ensures
        !taken.contains(pick_slug(c, taken)),
{
    lemma_free_slug_exists(c, taken);
    let k0 = choose|k: nat| k <= taken.len() && !taken.contains(suffixed(c, k));
    lemma_first_free_exists(c, taken, k0);
    let k = choose|k: nat| is_first_free(c, taken, k);
    assert(!taken.contains(suffixed(c, k)));
}

/// The decimal digits of `n`, as a byte vector.
pub fn dec_u64(n: u64) -> (r: Vec<u8>)
    ensures
        r@ == dec_of(n as nat),
    decreases n,
{
    if n < 10 {
        let mut v: Vec<u8> = Vec::new();
        v.push(48 + n as u8);
        assert(v@ =~= dec_of(n as nat));
        v
    } else {
        let mut v = dec_u64(n / 10);
        v.push(48 + (n % 10) as u8);
        assert(v@ =~= dec_of(n as nat));
        v
    }
}

/// The candidate with suffix number `k`, as a byte vector.
fn suffixed_exec(c: &Vec<u8>, k: u64) -> (r: Vec<u8>)
    requires
        k >= 1,
    ensures
        r@ == suffixed(c@, k as nat),
{
    let mut v = copy_bytes(c);
    v.push(45);
    let d = dec_u64(k);
    append_bytes(&mut v, d.as_slice());
    assert(v@ =~= suffixed(c@, k as nat));
    v
}

/// Assigns a slug for `candidate` given the already taken slugs: the first
/// candidate of `candidate`, `candidate-1`, `candidate-2`, ... that is free.
pub fn fresh_slug(candidate: Vec<u8>, taken: &Vec<Vec<u8>>) -> (r: Vec<u8>)
    ensures
        r@ == pick_slug(candidate@, bytes_seq_view(taken@)),
        !bytes_seq_view(taken@).contains(r@),
{
    let ghost tk = bytes_seq_view(taken@);
    proof {
        lemma_free_slug_exists(candidate@, tk);
        let k0 = choose|k: nat| k <= tk.len() && !tk.contains(suffixed(candidate@, k));
        lemma_first_free_exists(candidate@, tk, k0);
    }
    let ghost kf = choose|k: nat| is_first_free(candidate@, tk, k);
    proof {
        let k0 = choose|k: nat| k <= tk.len() && !tk.contains(suffixed(candidate@, k));
        if kf > k0 {
            assert(tk.contains(suffixed(candidate@, k0)));
        }
        assert(kf <= tk.len());
        assert(tk.len() == taken@.len());
    }
    if !contains_vec(taken, &candidate) {
        proof {
            assert(is_first_free(candidate@, tk, 0));
            lemma_first_free_unique(candidate@, tk, 0, kf);
        }
        return candidate;
    }
    let tl = taken.len();
    let mut k: u64 = 1;
    loop
        invariant
            1 <= k,
            k <= kf,
            kf <= tl as nat,
            is_first_free(candidate@, tk, kf),
            tk == bytes_seq_view(taken@),
            forall|j: nat| j < k ==> tk.contains(suffixed(candidate@, j)),
        ensures
            is_first_free(candidate@, tk, k as nat),
        decreases kf - k,
    {
        let cand_k = suffixed_exec(&candidate, k);
        if !contains_vec(taken, &cand_k) {
            break;
        }
        proof {
            assert(k as nat != kf);
        }
        k = k + 1;
    }
    let r = suffixed_exec(&candidate, k);
    proof {
        lemma_first_free_unique(candidate@, tk, k as nat, kf);
    }
    r
}

/// The running state of one document's heading scan.
pub struct ScanState {
    /// Whether the scan stands between a heading's start and its end.
    pub in_heading: bool,
    /// The normalized text gathered inside the current heading.
    pub acc: Seq<u8>,
    /// The slugs assigned so far, in document order.
    pub slugs: Seq<Seq<u8>>,
}

/// The state before any token was seen.
pub open spec fn scan_init() -> ScanState {
    ScanState { in_heading: false, acc: seq![], slugs: seq![] }
}

/// How one token advances the heading scan.
pub open spec fn scan_step(st: ScanState, t: TokenView) -> ScanState {
    match t {
        TokenView::HeadingStart => ScanState { in_heading: true, acc: seq![], slugs: st.slugs },
        TokenView::HeadingEnd => if st.in_heading {
            ScanState {
                in_heading: false,
                acc: seq![],
                slugs: st.slugs.push(pick_slug(st.acc, st.slugs)),
            }
        } else {
            st
        },
        TokenView::Text(s) => if st.in_heading {
            ScanState { in_heading: true, acc: st.acc + normalize_seq(s), slugs: st.slugs }
        } else {
            st
        },
        TokenView::Code(s) => if st.in_heading {
            ScanState { in_heading: true, acc: st.acc + normalize_seq(s), slugs: st.slugs }
        } else {
            st
        },
        _ => st,
    }
}

/// The state after scanning a whole token stream.
pub open spec fn scan(tokens: Seq<TokenView>) -> ScanState
    decreases tokens.len(),
{
    if tokens.len() == 0 {
        scan_init()
    } else {
        scan_step(scan(tokens.drop_last()), tokens.last())
    }
}

/// The slugs of a token stream, one per heading, in document order.
pub open spec fn slugs_of(tokens: Seq<TokenView>) -> Seq<Seq<u8>> {
    scan(tokens).slugs
}

/// Computes the slugs of a token stream.
pub fn heading_slugs(tokens: &Vec<Token>) -> (r: Vec<Vec<u8>>)
    ensures
        bytes_seq_view(r@) == slugs_of(tokens_view(tokens@)),
{
    let ghost tv = tokens_view(tokens@);
    let mut in_heading = false;
    let mut acc: Vec<u8> = Vec::new();
    let mut out: Vec<Vec<u8>> = Vec::new();
    let n = tokens.len();
    let mut i: usize = 0;
    while i < n
        invariant
            i <= n,
            n == tokens@.len(),
            tv == tokens_view(tokens@),
            scan(tv.subrange(0, i as int)).in_heading == in_heading,
            scan(tv.subrange(0, i as int)).acc == acc@,
            scan(tv.subrange(0, i as int)).slugs == bytes_seq_view(out@),
        decreases n - i,
    {
        proof {
            assert(tv.subrange(0, i + 1).drop_last() =~= tv.subrange(0, i as int));
            assert(tv.subrange(0, i + 1).last() == tv[i as int]);
        }
        let t = &tokens[i];
        match t {
            Token::HeadingStart => {
                in_heading = true;
                acc = Vec::new();
            },
            Token::HeadingEnd => {
                if in_heading {
                    in_heading = false;
                    let cand = copy_bytes(&acc);
                    acc = Vec::new();
                    let slug = fresh_slug(cand, &out);
                    out.push(slug);
                    proof {
                        assert(bytes_seq_view(out@) =~= scan(tv.subrange(0, i + 1)).slugs);
                    }
                }
            },
            Token::Text(s) => {
                if in_heading {
                    normalize_append(&mut acc, s.as_slice());
                }
            },
            Token::Code(s) => {
                if in_heading {
                    normalize_append(&mut acc, s.as_slice());
                }
            },
            _ => {},
        }
        i = i + 1;
    }
    proof {
        assert(tv.subrange(0, n as int) == tv);
    }
    out
}

/// The ordered slugs of one document's content: the heading index.
pub fn index(content: &[u8]) -> (r: Vec<Vec<u8>>)
    ensures
        bytes_seq_view(r@) == slugs_of(tokens_of(content@)),
{
    let toks = parse_tokens(content);
    heading_slugs(&toks)
}

/// Slug uniqueness: the slugs of one document never hold a value twice,
/// whatever the token stream was.
pub proof fn lemma_slug_uniqueness(tokens: Seq<TokenView>)
    ensures
        slugs_of(tokens).no_duplicates(),
    decreases tokens.len(),
{
    if tokens.len() > 0 {
        lemma_slug_uniqueness(tokens.drop_last());
        let st = scan(tokens.drop_last());
        match tokens.last() {
            TokenView::HeadingEnd => {
                if st.in_heading {
                    lemma_pick_slug_free(st.acc, st.slugs);
                }
            },
            _ => {},
        }
    }
}

/// Slug determinism: identical content yields an identical ordered sequence
/// of slugs.
pub proof fn lemma_slug_determinism(c1: Seq<u8>, c2: Seq<u8>)
    requires
        c1 == c2,
    ensures
        slugs_of(tokens_of(c1)) == slugs_of(tokens_of(c2)),
{
}

} // verus!
