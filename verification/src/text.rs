//! Text helpers: ASCII case folding and a total order on text, the order in which keys of
//! grants, repos and Projects are listed.

use vstd::prelude::*;
use vstd::string::*;

verus! {

/// The code of the ASCII lower-case form of one character; every other character keeps
/// its own code.
pub open spec fn lower_code(c: char) -> int {
    if 'A' <= c && c <= 'Z' {
        (c as int) + 32
    } else {
        c as int
    }
}

/// Whether `s` folded to ASCII lower case is exactly `lowered`.
pub open spec fn lowercase_matches(s: Seq<char>, lowered: Seq<char>) -> bool {
    &&& s.len() == lowered.len()
    &&& forall|i: int| 0 <= i < s.len() ==> lower_code(#[trigger] s[i]) == lowered[i] as int
}

fn lower_char_code(c: char) -> (r: u32)
    ensures
        r == lower_code(c),
{
    if 'A' <= c && c <= 'Z' {
        (c as u32) + 32
    } else {
        c as u32
    }
}

/// Whether `s` folded to ASCII lower case is exactly `lowered`.
pub fn lowercase_equals(s: &str, lowered: &str) -> (r: bool)
    ensures
        r == lowercase_matches(s@, lowered@),
{
    let n = s.unicode_len();
    let m = lowered.unicode_len();
    if n != m {
        return false;
    }
    let mut i: usize = 0;
    while i < n
        invariant
            n == s@.len(),
            m == lowered@.len(),
            n == m,
            i <= n,
            forall|j: int| 0 <= j < i ==> lower_code(#[trigger] s@[j]) == lowered@[j] as int,
        decreases n - i,
    {
        let c = lower_char_code(s.get_char(i));
        let d = lowered.get_char(i);
        if c != d as u32 {
            return false;
        }
        i = i + 1;
    }
    true
}

/// The code of a text for ordering: each character's scalar value plus one, so that `0`
/// is free to separate one text from the next inside a composite key.
pub open spec fn text_code(s: Seq<char>) -> Seq<u32> {
    Seq::new(s.len(), |i: int| ((s[i] as u32) + 1) as u32)
}

/// Appends the code of `s` to `out`.
pub fn push_text(out: &mut Vec<u32>, s: &str)
    ensures
        final(out)@ == old(out)@ + text_code(s@),
{
    let n = s.unicode_len();
    let ghost start = old(out)@;
    let mut i: usize = 0;
    while i < n
        invariant
            n == s@.len(),
            i <= n,
            out@ == start + text_code(s@).take(i as int),
        decreases n - i,
    {
        let c = s.get_char(i);
        out.push((c as u32) + 1);
        proof {
            assert(text_code(s@).take(i + 1) =~= text_code(s@).take(i as int).push(((c as u32) + 1) as u32));
        }
        i = i + 1;
    }
    proof {
        assert(text_code(s@).take(n as int) =~= text_code(s@));
    }
}

/// Lexicographic order of two codes: `-1` when `a` comes first, `0` when equal, `1` when
/// `b` comes first. A proper prefix comes first.
pub open spec fn seq_order(a: Seq<u32>, b: Seq<u32>) -> int
    decreases a.len(),
{
    if a.len() == 0 {
        if b.len() == 0 {
            0
        } else {
            -1
        }
    } else if b.len() == 0 {
        1
    } else if a[0] < b[0] {
        -1
    } else if a[0] > b[0] {
        1
    } else {
        seq_order(a.drop_first(), b.drop_first())
    }
}

/// The order is total: codes are equal exactly when neither comes first, and swapping
/// the two swaps the answer.
pub proof fn lemma_order_equal_antisym(a: Seq<u32>, b: Seq<u32>)
    ensures
        seq_order(a, b) == 0 <==> a == b,
        seq_order(a, b) == -seq_order(b, a),
        -1 <= seq_order(a, b) <= 1,
    decreases a.len(),
{
    if a.len() > 0 && b.len() > 0 && a[0] == b[0] {
        lemma_order_equal_antisym(a.drop_first(), b.drop_first());
        if a.drop_first() == b.drop_first() {
            assert(a =~= seq![a[0]] + a.drop_first());
            assert(b =~= seq![b[0]] + b.drop_first());
        }
        if a == b {
            assert(a.drop_first() =~= b.drop_first());
        }
    }
    if a.len() == 0 && b.len() == 0 {
        assert(a =~= b);
    }
}

/// The order is transitive.
pub proof fn lemma_order_trans(a: Seq<u32>, b: Seq<u32>, c: Seq<u32>)
    requires
        seq_order(a, b) < 0,
        seq_order(b, c) < 0,
    ensures
        seq_order(a, c) < 0,
    decreases a.len(),
{
    if a.len() > 0 && b.len() > 0 && c.len() > 0 && a[0] == b[0] && b[0] == c[0] {
        lemma_order_trans(a.drop_first(), b.drop_first(), c.drop_first());
    }
}

/// The order of two codes.
pub fn code_order(a: &Vec<u32>, b: &Vec<u32>) -> (r: i8)
    ensures
        r == seq_order(a@, b@),
{
    let mut i: usize = 0;
    proof {
        assert(a@.skip(0) =~= a@);
        assert(b@.skip(0) =~= b@);
    }
    while i < a.len() && i < b.len()
        invariant
            i <= a@.len(),
            i <= b@.len(),
            seq_order(a@, b@) == seq_order(a@.skip(i as int), b@.skip(i as int)),
        decreases a@.len() - i,
    {
        if a[i] < b[i] {
            return -1;
        }
        if a[i] > b[i] {
            return 1;
        }
        proof {
            assert(a@.skip(i as int).drop_first() =~= a@.skip(i + 1));
            assert(b@.skip(i as int).drop_first() =~= b@.skip(i + 1));
        }
        i = i + 1;
    }
    if i < a.len() {
        1
    } else if i < b.len() {
        -1
    } else {
        0
    }
}

/// The views of a sequence of code vectors.
pub open spec fn code_views(codes: Seq<Vec<u32>>) -> Seq<Seq<u32>> {
    codes.map_values(|v: Vec<u32>| v@)
}

/// `keys` lists positions into `codes` whose codes strictly increase.
pub open spec fn strictly_increasing_at(codes: Seq<Seq<u32>>, keys: Seq<usize>) -> bool {
    &&& forall|t: int| 0 <= t < keys.len() ==> (#[trigger] keys[t]) < codes.len()
    &&& forall|s: int, t: int|
        0 <= s < t < keys.len() ==> seq_order(codes[#[trigger] keys[s] as int], codes[#[trigger] keys[t] as int]) < 0
}

/// Some position listed in `keys` holds the code `x`.
pub open spec fn listed(codes: Seq<Seq<u32>>, keys: Seq<usize>, x: Seq<u32>) -> bool {
    exists|t: int| 0 <= t < keys.len() && codes[keys[t] as int] == x
}

/// `keys` lists, in increasing order, exactly one position for each distinct code of
/// `codes`.
pub open spec fn distinct_sorted_keys(codes: Seq<Seq<u32>>, keys: Seq<usize>) -> bool {
    &&& strictly_increasing_at(codes, keys)
    &&& forall|i: int| 0 <= i < codes.len() ==> listed(codes, keys, #[trigger] codes[i])
}

/// One position for each distinct code of `codes`, listed in increasing order of code.
pub fn distinct_sorted(codes: &Vec<Vec<u32>>) -> (keys: Vec<usize>)
    ensures
        distinct_sorted_keys(code_views(codes@), keys@),
{
    let ghost cv = code_views(codes@);
    let mut keys: Vec<usize> = Vec::new();
    let mut i: usize = 0;
    while i < codes.len()
        invariant
            cv == code_views(codes@),
            i <= codes@.len(),
            strictly_increasing_at(cv, keys@),
            forall|j: int| 0 <= j < i ==> listed(cv, keys@, #[trigger] cv[j]),
        decreases codes@.len() - i,
    {
        let mut pos: usize = 0;
        let mut found = false;
        while pos < keys.len()
            invariant_except_break
                !found,
            invariant
                cv == code_views(codes@),
                i < codes@.len(),
                pos <= keys@.len(),
                strictly_increasing_at(cv, keys@),
                forall|t: int| 0 <= t < pos ==> seq_order(cv[#[trigger] keys@[t] as int], cv[i as int]) < 0,
                found ==> pos < keys@.len() && cv[keys@[pos as int] as int] == cv[i as int],
            ensures
                pos <= keys@.len(),
                found ==> pos < keys@.len() && cv[keys@[pos as int] as int] == cv[i as int],
                !found ==> pos == keys@.len() || seq_order(cv[keys@[pos as int] as int], cv[i as int]) > 0,
                forall|t: int| 0 <= t < pos ==> seq_order(cv[#[trigger] keys@[t] as int], cv[i as int]) < 0,
            decreases keys@.len() - pos,
        {
            let o = code_order(&codes[keys[pos]], &codes[i]);
            proof {
                lemma_order_equal_antisym(cv[keys@[pos as int] as int], cv[i as int]);
            }
            if o == 0 {
                found = true;
                break;
            } else if o > 0 {
                break;
            }
            pos = pos + 1;
        }
        if !found {
            let ghost old_keys = keys@;
            proof {
                if pos < old_keys.len() {
                    lemma_order_equal_antisym(cv[old_keys[pos as int] as int], cv[i as int]);
                }
            }
            keys.insert(pos, i);
            proof {
                assert forall|s: int, t: int| 0 <= s < t < keys@.len() implies
                    seq_order(cv[#[trigger] keys@[s] as int], cv[#[trigger] keys@[t] as int]) < 0 by {
                    if t < pos {
                    } else if t == pos {
                        assert(keys@[s] == old_keys[s]);
                    } else if s == pos {
                        assert(keys@[t] == old_keys[t - 1]);
                        if t - 1 > pos {
                            lemma_order_trans(cv[i as int], cv[old_keys[pos as int] as int], cv[old_keys[t - 1] as int]);
                        }
                    } else if s < pos {
                        assert(keys@[t] == old_keys[t - 1]);
                    } else {
                        assert(keys@[t] == old_keys[t - 1]);
                        assert(keys@[s] == old_keys[s - 1]);
                    }
                }
                assert forall|j: int| 0 <= j <= i implies listed(cv, keys@, #[trigger] cv[j]) by {
                    if j == i {
                        assert(keys@[pos as int] == i);
                    } else {
                        assert(listed(cv, old_keys, cv[j]));
                        let t0 = choose|t: int| 0 <= t < old_keys.len() && cv[old_keys[t] as int] == cv[j];
                        if t0 < pos {
                            assert(keys@[t0] == old_keys[t0]);
                        } else {
                            assert(keys@[t0 + 1] == old_keys[t0]);
                        }
                    }
                }
            }
        } else {
            proof {
                assert forall|j: int| 0 <= j <= i implies listed(cv, keys@, #[trigger] cv[j]) by {
                    if j == i {
                        assert(cv[keys@[pos as int] as int] == cv[j]);
                    }
                }
            }
        }
        i = i + 1;
    }
    keys
}

/// Position of the last code equal to `k` in `codes`, or `-1` when there is none.
pub open spec fn last_index(codes: Seq<Seq<u32>>, k: Seq<u32>) -> int
    decreases codes.len(),
{
    if codes.len() == 0 {
        -1
    } else if codes.last() == k {
        codes.len() - 1
    } else {
        last_index(codes.drop_last(), k)
    }
}

/// `last_index` is `-1` or a position holding `k`, after which `k` does not occur again.
pub proof fn lemma_last_index(codes: Seq<Seq<u32>>, k: Seq<u32>)
    ensures
        -1 <= last_index(codes, k) < codes.len(),
        last_index(codes, k) >= 0 ==> codes[last_index(codes, k)] == k,
        forall|j: int| last_index(codes, k) < j < codes.len() ==> codes[j] != k,
    decreases codes.len(),
{
    if codes.len() > 0 && codes.last() != k {
        lemma_last_index(codes.drop_last(), k);
        assert forall|j: int| last_index(codes, k) < j < codes.len() implies codes[j] != k by {
            if j < codes.len() - 1 {
                assert(codes[j] == codes.drop_last()[j]);
            }
        }
    }
}

/// The position of the last code equal to `k` among `codes[lo..hi]`, relative to `lo`.
pub fn find_last(codes: &Vec<Vec<u32>>, lo: usize, hi: usize, k: &Vec<u32>) -> (r: Option<usize>)
    requires
        lo <= hi <= codes@.len(),
    ensures
        match r {
            None => last_index(code_views(codes@).subrange(lo as int, hi as int), k@) == -1,
            Some(j) => j == last_index(code_views(codes@).subrange(lo as int, hi as int), k@),
        },
{
    let ghost cv = code_views(codes@).subrange(lo as int, hi as int);
    let mut i: usize = hi;
    proof {
        assert(cv.take(hi - lo) =~= cv);
    }
    while i > lo
        invariant
            lo <= i <= hi <= codes@.len(),
            cv == code_views(codes@).subrange(lo as int, hi as int),
            last_index(cv, k@) == last_index(cv.take(i - lo), k@),
        decreases i,
    {
        let o = code_order(&codes[i - 1], k);
        proof {
            lemma_order_equal_antisym(codes@[i - 1]@, k@);
            assert(cv.take(i - lo).drop_last() =~= cv.take(i - 1 - lo));
            assert(cv.take(i - lo).last() == codes@[i - 1]@);
        }
        if o == 0 {
            return Some(i - 1 - lo);
        }
        i = i - 1;
    }
    proof {
        assert(cv.take(0) =~= Seq::<Seq<u32>>::empty());
    }
    None
}

/// Every entry of a text code is at least one, leaving `0` free as a separator.
pub proof fn lemma_text_code_positive(s: Seq<char>)
    ensures
        forall|i: int| 0 <= i < text_code(s).len() ==> #[trigger] text_code(s)[i] >= 1,
{
    assert forall|i: int| 0 <= i < text_code(s).len() implies #[trigger] text_code(s)[i] >= 1 by {
        vstd::utf8::char_is_scalar(s[i]);
    }
}

/// Texts with the same code are the same text.
pub proof fn lemma_text_code_injective(s1: Seq<char>, s2: Seq<char>)
    ensures
        text_code(s1) == text_code(s2) <==> s1 == s2,
{
    if text_code(s1) == text_code(s2) {
        assert(s1.len() == text_code(s1).len());
        assert(s2.len() == text_code(s2).len());
        assert forall|i: int| 0 <= i < s1.len() implies s1[i] == s2[i] by {
            assert(text_code(s1)[i] == text_code(s2)[i]);
            vstd::utf8::char_is_scalar(s1[i]);
            vstd::utf8::char_is_scalar(s2[i]);
            vstd::utf8::char_u32_cast(s1[i], s1[i] as u32);
            vstd::utf8::char_u32_cast(s2[i], s2[i] as u32);
        }
        assert(s1 =~= s2);
    }
}

/// Two composite codes `x + [0] + r` whose heads hold no `0` are ordered by their heads
/// first, and by their tails when the heads are equal.
pub proof fn lemma_separated_order(x1: Seq<u32>, r1: Seq<u32>, x2: Seq<u32>, r2: Seq<u32>)
    requires
        forall|i: int| 0 <= i < x1.len() ==> #[trigger] x1[i] >= 1,
        forall|i: int| 0 <= i < x2.len() ==> #[trigger] x2[i] >= 1,
    ensures
        seq_order(x1 + seq![0u32] + r1, x2 + seq![0u32] + r2) == if x1 == x2 {
            seq_order(r1, r2)
        } else {
            seq_order(x1, x2)
        },
    decreases x1.len(),
{
    let c1 = x1 + seq![0u32] + r1;
    let c2 = x2 + seq![0u32] + r2;
    if x1.len() == 0 && x2.len() == 0 {
        assert(c1.drop_first() =~= r1);
        assert(c2.drop_first() =~= r2);
        assert(x1 =~= x2);
    } else if x1.len() == 0 {
        assert(c1[0] == 0);
        assert(c2[0] == x2[0]);
    } else if x2.len() == 0 {
        assert(c1[0] == x1[0]);
        assert(c2[0] == 0);
    } else {
        assert(c1[0] == x1[0]);
        assert(c2[0] == x2[0]);
        if x1[0] == x2[0] {
            let y1 = x1.drop_first();
            let y2 = x2.drop_first();
            assert(c1.drop_first() =~= y1 + seq![0u32] + r1);
            assert(c2.drop_first() =~= y2 + seq![0u32] + r2);
            assert forall|i: int| 0 <= i < y1.len() implies #[trigger] y1[i] >= 1 by {
                assert(y1[i] == x1[i + 1]);
            }
            assert forall|i: int| 0 <= i < y2.len() implies #[trigger] y2[i] >= 1 by {
                assert(y2[i] == x2[i + 1]);
            }
            lemma_separated_order(y1, r1, y2, r2);
            if y1 == y2 {
                assert(x1 =~= seq![x1[0]] + y1);
                assert(x2 =~= seq![x2[0]] + y2);
            }
            if x1 == x2 {
                assert(y1 =~= y2);
            }
        }
    }
}

/// `<=` on codes is transitive.
pub proof fn lemma_order_le_trans(a: Seq<u32>, b: Seq<u32>, c: Seq<u32>)
    requires
        seq_order(a, b) <= 0,
        seq_order(b, c) <= 0,
    ensures
        seq_order(a, c) <= 0,
        seq_order(a, b) < 0 || seq_order(b, c) < 0 ==> seq_order(a, c) < 0,
{
    lemma_order_equal_antisym(a, b);
    lemma_order_equal_antisym(b, c);
    lemma_order_equal_antisym(a, c);
    if seq_order(a, b) < 0 && seq_order(b, c) < 0 {
        lemma_order_trans(a, b, c);
    }
}

/// Number of distinct codes in `s`.
pub open spec fn distinct_count(s: Seq<Seq<u32>>) -> nat
    decreases s.len(),
{
    if s.len() == 0 {
        0
    } else {
        distinct_count(s.drop_last()) + if s.drop_last().contains(s.last()) {
            0nat
        } else {
            1nat
        }
    }
}

/// Whether `k` occurs among `codes[0..n]`.
pub fn occurs_before(codes: &Vec<Vec<u32>>, n: usize, k: &Vec<u32>) -> (r: bool)
    requires
        n <= codes@.len(),
    ensures
        r == code_views(codes@).take(n as int).contains(k@),
{
    let ghost cv = code_views(codes@);
    let mut i: usize = 0;
    while i < n
        invariant
            n <= codes@.len(),
            cv == code_views(codes@),
            i <= n,
            forall|j: int| 0 <= j < i ==> cv[j] != k@,
        decreases n - i,
    {
        let o = code_order(&codes[i], k);
        proof {
            lemma_order_equal_antisym(codes@[i as int]@, k@);
        }
        if o == 0 {
            proof {
                assert(cv.take(n as int)[i as int] == k@);
            }
            return true;
        }
        i = i + 1;
    }
    proof {
        if cv.take(n as int).contains(k@) {
            let j = choose|j: int| 0 <= j < n && cv.take(n as int)[j] == k@;
            assert(cv[j] == k@);
        }
    }
    false
}

/// Number of distinct codes in `codes`.
pub fn count_distinct(codes: &Vec<Vec<u32>>) -> (r: usize)
    ensures
        r == distinct_count(code_views(codes@)),
{
    let ghost cv = code_views(codes@);
    let mut count: usize = 0;
    let mut i: usize = 0;
    while i < codes.len()
        invariant
            cv == code_views(codes@),
            i <= codes@.len(),
            count == distinct_count(cv.take(i as int)),
            count <= i,
        decreases codes@.len() - i,
    {
        let seen = occurs_before(codes, i, &codes[i]);
        proof {
            assert(cv.take(i + 1).drop_last() =~= cv.take(i as int));
            assert(cv.take(i + 1).last() == codes@[i as int]@);
        }
        if !seen {
            count = count + 1;
        }
        i = i + 1;
    }
    proof {
        assert(cv.take(codes@.len() as int) =~= cv);
    }
    count
}

/// `perm` lists every position of `codes` once, in non-decreasing order of code, keeping
/// positions with equal codes in their input order.
pub open spec fn is_stable_order(codes: Seq<Seq<u32>>, perm: Seq<usize>) -> bool {
    &&& perm.len() == codes.len()
    &&& forall|t: int| 0 <= t < perm.len() ==> (#[trigger] perm[t]) < codes.len()
    &&& forall|s: int, t: int| 0 <= s < t < perm.len() ==> #[trigger] perm[s] != #[trigger] perm[t]
    &&& forall|s: int, t: int|
        0 <= s < t < perm.len() ==> seq_order(codes[#[trigger] perm[s] as int], codes[#[trigger] perm[t] as int]) <= 0
    &&& forall|s: int, t: int|
        0 <= s < t < perm.len() && codes[#[trigger] perm[s] as int] == codes[#[trigger] perm[t] as int] ==> perm[s] < perm[t]
}

/// A stable ordering of the positions of `codes` by code.
pub fn stable_order(codes: &Vec<Vec<u32>>) -> (perm: Vec<usize>)
    ensures
        is_stable_order(code_views(codes@), perm@),
{
    let ghost cv = code_views(codes@);
    let mut perm: Vec<usize> = Vec::new();
    let mut i: usize = 0;
    while i < codes.len()
        invariant
            cv == code_views(codes@),
            i <= codes@.len(),
            perm@.len() == i,
            forall|t: int| 0 <= t < perm@.len() ==> (#[trigger] perm@[t]) < i,
            forall|s: int, t: int| 0 <= s < t < perm@.len() ==> #[trigger] perm@[s] != #[trigger] perm@[t],
            forall|s: int, t: int|
                0 <= s < t < perm@.len() ==> seq_order(cv[#[trigger] perm@[s] as int], cv[#[trigger] perm@[t] as int]) <= 0,
            forall|s: int, t: int|
                0 <= s < t < perm@.len() && cv[#[trigger] perm@[s] as int] == cv[#[trigger] perm@[t] as int] ==> perm@[s] < perm@[t],
        decreases codes@.len() - i,
    {
        let mut p: usize = 0;
        let mut stop = false;
        while p < perm.len()
            invariant_except_break
                !stop,
            invariant
                cv == code_views(codes@),
                i < codes@.len(),
                p <= perm@.len(),
                forall|t: int| 0 <= t < perm@.len() ==> (#[trigger] perm@[t]) < i,
                forall|t: int| 0 <= t < p ==> seq_order(cv[#[trigger] perm@[t] as int], cv[i as int]) <= 0,
            ensures
                p <= perm@.len(),
                forall|t: int| 0 <= t < p ==> seq_order(cv[#[trigger] perm@[t] as int], cv[i as int]) <= 0,
                p < perm@.len() ==> seq_order(cv[perm@[p as int] as int], cv[i as int]) > 0,
            decreases perm@.len() - p,
        {
            let o = code_order(&codes[perm[p]], &codes[i]);
            if o > 0 {
                stop = true;
                break;
            }
            p = p + 1;
        }
        let ghost old_perm = perm@;
        proof {
            if p < old_perm.len() {
                lemma_order_equal_antisym(cv[old_perm[p as int] as int], cv[i as int]);
            }
        }
        perm.insert(p, i);
        proof {
            assert forall|t: int| 0 <= t < perm@.len() implies (#[trigger] perm@[t]) < i + 1 by {
                if t < p {
                    assert(perm@[t] == old_perm[t]);
                } else if t > p {
                    assert(perm@[t] == old_perm[t - 1]);
                }
            }
            assert forall|s: int, t: int| 0 <= s < t < perm@.len() implies #[trigger] perm@[s] != #[trigger] perm@[t] by {
                if s < p && t < p {
                } else if s < p && t > p {
                    assert(perm@[t] == old_perm[t - 1]);
                } else if s > p {
                    assert(perm@[t] == old_perm[t - 1]);
                    assert(perm@[s] == old_perm[s - 1]);
                } else if s == p {
                    assert(perm@[t] == old_perm[t - 1]);
                } else {
                    assert(perm@[s] == old_perm[s]);
                }
            }
            assert forall|s: int, t: int| 0 <= s < t < perm@.len() implies
                seq_order(cv[#[trigger] perm@[s] as int], cv[#[trigger] perm@[t] as int]) <= 0
                && (cv[perm@[s] as int] == cv[perm@[t] as int] ==> perm@[s] < perm@[t]) by {
                if t < p {
                    assert(perm@[s] == old_perm[s]);
                    assert(perm@[t] == old_perm[t]);
                } else if t == p {
                    assert(perm@[s] == old_perm[s]);
                } else if s == p {
                    assert(perm@[t] == old_perm[t - 1]);
                    if t - 1 > p {
                        assert(seq_order(cv[old_perm[p as int] as int], cv[old_perm[t - 1] as int]) <= 0);
                        lemma_order_le_trans(cv[i as int], cv[old_perm[p as int] as int], cv[old_perm[t - 1] as int]);
                    }
                    lemma_order_equal_antisym(cv[i as int], cv[old_perm[t - 1] as int]);
                } else if s < p {
                    assert(perm@[s] == old_perm[s]);
                    assert(perm@[t] == old_perm[t - 1]);
                } else {
                    assert(perm@[s] == old_perm[s - 1]);
                    assert(perm@[t] == old_perm[t - 1]);
                }
            }
        }
        i = i + 1;
    }
    perm
}

/// Whether two texts are equal.
pub fn text_equals(a: &str, b: &str) -> (r: bool)
    ensures
        r == (a@ == b@),
{
    let n = a.unicode_len();
    let m = b.unicode_len();
    if n != m {
        return false;
    }
    let mut i: usize = 0;
    while i < n
        invariant
            n == a@.len(),
            m == b@.len(),
            n == m,
            i <= n,
            forall|j: int| 0 <= j < i ==> a@[j] == b@[j],
        decreases n - i,
    {
        if a.get_char(i) != b.get_char(i) {
            return false;
        }
        i = i + 1;
    }
    proof {
        assert(a@ =~= b@);
    }
    true
}

/// Position of the last text equal to `k` in `keys`, or `-1` when there is none.
pub open spec fn last_key_index(keys: Seq<String>, k: Seq<char>) -> int
    decreases keys.len(),
{
    if keys.len() == 0 {
        -1
    } else if keys.last()@ == k {
        keys.len() - 1
    } else {
        last_key_index(keys.drop_last(), k)
    }
}

/// `last_key_index` is `-1` or a position holding `k`, after which `k` does not occur again.
pub proof fn lemma_last_key_index(keys: Seq<String>, k: Seq<char>)
    ensures
        -1 <= last_key_index(keys, k) < keys.len(),
        last_key_index(keys, k) >= 0 ==> keys[last_key_index(keys, k)]@ == k,
        forall|j: int| last_key_index(keys, k) < j < keys.len() ==> (#[trigger] keys[j])@ != k,
    decreases keys.len(),
{
    if keys.len() > 0 && keys.last()@ != k {
        lemma_last_key_index(keys.drop_last(), k);
        assert forall|j: int| last_key_index(keys, k) < j < keys.len() implies (#[trigger] keys[j])@ != k by {
            if j < keys.len() - 1 {
                assert(keys[j] == keys.drop_last()[j]);
            }
        }
    }
}

/// The position of the last text equal to `k` in `keys`.
pub fn find_key(keys: &Vec<String>, k: &str) -> (r: Option<usize>)
    ensures
        match r {
            None => last_key_index(keys@, k@) == -1,
            Some(j) => j == last_key_index(keys@, k@),
        },
{
    let mut i: usize = keys.len();
    proof {
        assert(keys@.take(keys@.len() as int) =~= keys@);
    }
    while i > 0
        invariant
            i <= keys@.len(),
            last_key_index(keys@, k@) == last_key_index(keys@.take(i as int), k@),
        decreases i,
    {
        let same = text_equals(keys[i - 1].as_str(), k);
        proof {
            assert(keys@.take(i as int).drop_last() =~= keys@.take(i - 1));
            assert(keys@.take(i as int).last() == keys@[i - 1]);
        }
        if same {
            return Some(i - 1);
        }
        i = i - 1;
    }
    None
}

/// A text found among `keys` is still found once more keys follow.
pub proof fn lemma_last_key_index_extends(keys: Seq<String>, more: Seq<String>, k: Seq<char>)
    ensures
        last_key_index(keys, k) >= 0 ==> last_key_index(keys + more, k) >= last_key_index(keys, k),
{
    lemma_last_key_index(keys, k);
    lemma_last_key_index(keys + more, k);
    let i = last_key_index(keys, k);
    if i >= 0 {
        assert((keys + more)[i] == keys[i]);
    }
}

} // verus!
