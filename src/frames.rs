//! Ordering and naming of the frames of an animation.

use vstd::prelude::*;
use vstd::string::*;
use crate::text::{decimal, digit_char, zero_padded, push_chars, push_zero_padded};

verus! {

broadcast use vstd::seq_lib::group_to_multiset_ensures;

/// Width to which frame numbers are padded with zeros.
pub const FRAME_NUMBER_WIDTH: usize = 4;

/// The name of the text file of frame `index`: `frame_`, the index padded
/// with zeros to four digits, and `.txt`.
pub open spec fn frame_name(index: nat) -> Seq<char> {
    seq!['f', 'r', 'a', 'm', 'e', '_'] + zero_padded(index, FRAME_NUMBER_WIDTH as nat) + seq!['.', 't', 'x', 't']
}

/// The file name under which the text of frame `index` is written.
pub fn frame_file_name(index: usize) -> (r: String)
    ensures
        r@ == frame_name(index as nat),
{
    let mut s = String::new();
    push_chars(&mut s, &['f', 'r', 'a', 'm', 'e', '_']);
    push_zero_padded(&mut s, index as u64, FRAME_NUMBER_WIDTH);
    push_chars(&mut s, &['.', 't', 'x', 't']);
    proof {
        assert(s@ =~= frame_name(index as nat));
    }
    s
}

/// Lexicographic order on character sequences: `a` comes no later than `b`.
pub open spec fn lex_le(a: Seq<char>, b: Seq<char>) -> bool
    decreases a.len(),
{
    if a.len() == 0 {
        true
    } else if b.len() == 0 {
        false
    } else if a[0] != b[0] {
        a[0] < b[0]
    } else {
        lex_le(a.drop_first(), b.drop_first())
    }
}

/// Any two sequences are ordered one way or the other.
pub proof fn lemma_lex_total(a: Seq<char>, b: Seq<char>)
    ensures
        lex_le(a, b) || lex_le(b, a),
    decreases a.len(),
{
    if a.len() > 0 && b.len() > 0 && a[0] == b[0] {
        lemma_lex_total(a.drop_first(), b.drop_first());
    }
}

/// The order is transitive.
pub proof fn lemma_lex_transitive(a: Seq<char>, b: Seq<char>, c: Seq<char>)
    requires
        lex_le(a, b),
        lex_le(b, c),
    ensures
        lex_le(a, c),
    decreases a.len(),
{
    if a.len() > 0 && b.len() > 0 && c.len() > 0 && a[0] == b[0] && b[0] == c[0] {
        lemma_lex_transitive(a.drop_first(), b.drop_first(), c.drop_first());
    }
}

/// Whether `a` comes no later than `b` in lexicographic order.
pub fn lex_less_eq(a: &String, b: &String) -> (r: bool)
    ensures
        r == lex_le(a@, b@),
{
    let sa = a.as_str();
    let sb = b.as_str();
    let la = sa.unicode_len();
    let lb = sb.unicode_len();
    let mut i: usize = 0;
    proof {
        assert(a@.skip(0) =~= a@);
        assert(b@.skip(0) =~= b@);
    }
    while i < la && i < lb
        invariant
            la == a@.len(),
            lb == b@.len(),
            sa@ == a@,
            sb@ == b@,
            i <= la,
            i <= lb,
            lex_le(a@, b@) == lex_le(a@.skip(i as int), b@.skip(i as int)),
        decreases la - i,
    {
        let ca = sa.get_char(i);
        let cb = sb.get_char(i);
        if ca != cb {
            return ca < cb;
        }
        proof {
            assert(a@.skip(i as int).drop_first() =~= a@.skip(i + 1));
            assert(b@.skip(i as int).drop_first() =~= b@.skip(i + 1));
        }
        i = i + 1;
    }
    i == la
}

/// Every element comes no later than every element after it.
pub open spec fn is_sorted(names: Seq<String>) -> bool {
    forall|i: int, j: int| 0 <= i < j < names.len() ==> lex_le(#[trigger] names[i]@, #[trigger] names[j]@)
}

/// The same names, as a multiset, in lexicographic order.
pub fn sort_names(names: Vec<String>) -> (r: Vec<String>)
    ensures
        r@.len() == names@.len(),
        r@.to_multiset() == names@.to_multiset(),
        is_sorted(r@),
{
    let mut sorted: Vec<String> = Vec::new();
    for n in 0..names.len()
        invariant
            sorted@.len() == n,
            sorted@.to_multiset() == names@.subrange(0, n as int).to_multiset(),
            is_sorted(sorted@),
    {
        let name = names[n].clone();
        let mut p: usize = 0;
        while p < sorted.len() && lex_less_eq(&sorted[p], &name)
            invariant
                p <= sorted@.len(),
                forall|k: int| 0 <= k < p ==> lex_le(#[trigger] sorted@[k]@, name@),
            decreases sorted@.len() - p,
        {
            p = p + 1;
        }
        proof {
            if p < sorted@.len() {
                lemma_lex_total(sorted@[p as int]@, name@);
                assert forall|k: int| p <= k < sorted@.len() implies lex_le(name@, #[trigger] sorted@[k]@) by {
                    if k > p {
                        lemma_lex_transitive(name@, sorted@[p as int]@, sorted@[k]@);
                    }
                }
            }
        }
        let ghost before = sorted@;
        sorted.insert(p, name);
        proof {
            vstd::seq_lib::to_multiset_insert(before, p as int, name);
            assert(names@.subrange(0, n + 1) =~= names@.subrange(0, n as int).push(names@[n as int]));
            assert forall|i: int, j: int| 0 <= i < j < sorted@.len() implies lex_le(#[trigger] sorted@[i]@, #[trigger] sorted@[j]@) by {
                if i < p && j == p {
                } else if i == p && j > p {
                    assert(sorted@[j] == before[j - 1]);
                } else if i < p && j > p {
                    assert(sorted@[j] == before[j - 1]);
                } else if i > p {
                    assert(sorted@[i] == before[i - 1]);
                    assert(sorted@[j] == before[j - 1]);
                }
            }
        }
    }
    proof {
        assert(names@.subrange(0, names@.len() as int) =~= names@);
    }
    sorted
}

/// One frame of an animation run: the still image it is read from, the text
/// file it is written to, and whether its resized image is kept.
pub struct FrameJob {
    pub source: String,
    pub output: String,
    pub save_resized: bool,
}

/// The still images that a list of jobs reads, in job order.
pub open spec fn job_sources(jobs: Seq<FrameJob>) -> Seq<String> {
    jobs.map_values(|j: FrameJob| j.source)
}

/// The jobs of an animation run over the extracted still images `sources`:
/// the images in lexicographic order, the `k`-th one written to the text file
/// of frame `k`, and only the first one's resized image kept, when asked.
pub fn plan_frames(sources: Vec<String>, save_first: bool) -> (r: Vec<FrameJob>)
    ensures
        r@.len() == sources@.len(),
        job_sources(r@).to_multiset() == sources@.to_multiset(),
        is_sorted(job_sources(r@)),
        forall|k: int| 0 <= k < r@.len() ==> #[trigger] r@[k].output@ == frame_name(k as nat),
        forall|k: int| 0 <= k < r@.len() ==> #[trigger] r@[k].save_resized == (save_first && k == 0),
{
    let sorted = sort_names(sources);
    let mut jobs: Vec<FrameJob> = Vec::new();
    for k in 0..sorted.len()
        invariant
            job_sources(jobs@) == sorted@.subrange(0, k as int),
            jobs@.len() == k,
            forall|m: int| 0 <= m < k ==> #[trigger] jobs@[m].output@ == frame_name(m as nat),
            forall|m: int| 0 <= m < k ==> #[trigger] jobs@[m].save_resized == (save_first && m == 0),
    {
        let job = FrameJob { source: sorted[k].clone(), output: frame_file_name(k), save_resized: save_first && k == 0 };
        jobs.push(job);
        proof {
            assert(job_sources(jobs@) =~= sorted@.subrange(0, k + 1));
        }
    }
    proof {
        assert(sorted@.subrange(0, sorted@.len() as int) =~= sorted@);
    }
    jobs
}

/// The four digits of a number below ten thousand, most significant first.
pub open spec fn four_digits(n: int) -> Seq<char> {
    seq![digit_char(n / 1000), digit_char((n / 100) % 10), digit_char((n / 10) % 10), digit_char(n % 10)]
}

proof fn lemma_zero_padded_four(n: nat)
    requires
        n < 10000,
    ensures
        zero_padded(n, FRAME_NUMBER_WIDTH as nat) == four_digits(n as int),
{
    reveal_with_fuel(decimal, 4);
    if n < 10 {
        assert(zero_padded(n, 4) =~= four_digits(n as int));
    } else if n < 100 {
        assert(zero_padded(n, 4) =~= four_digits(n as int));
    } else if n < 1000 {
        assert(zero_padded(n, 4) =~= four_digits(n as int));
    } else {
        assert(zero_padded(n, 4) =~= four_digits(n as int));
    }
}

proof fn lemma_lex_common_prefix(p: Seq<char>, a: Seq<char>, b: Seq<char>)
    ensures
        lex_le(p + a, p + b) == lex_le(a, b),
    decreases p.len(),
{
    if p.len() > 0 {
        assert((p + a).drop_first() =~= p.drop_first() + a);
        assert((p + b).drop_first() =~= p.drop_first() + b);
        lemma_lex_common_prefix(p.drop_first(), a, b);
    } else {
        assert(p + a =~= a);
        assert(p + b =~= b);
    }
}

proof fn lemma_digit_char_order(x: int, y: int)
    requires
        0 <= x < 10,
        0 <= y < 10,
    ensures
        (digit_char(x) == digit_char(y)) == (x == y),
        (digit_char(x) < digit_char(y)) == (x < y),
{
}

proof fn lemma_lex_first_difference(a: Seq<char>, b: Seq<char>, k: int)
    requires
        0 <= k < a.len(),
        k < b.len(),
        forall|m: int| 0 <= m < k ==> a[m] == b[m],
        a[k] < b[k],
    ensures
        lex_le(a, b),
        a != b,
    decreases k,
{
    if k > 0 {
        assert forall|m: int| 0 <= m < k - 1 implies a.drop_first()[m] == b.drop_first()[m] by {
            assert(a[m + 1] == b[m + 1]);
        }
        lemma_lex_first_difference(a.drop_first(), b.drop_first(), k - 1);
        assert(a[0] == b[0]);
    }
}

#[verifier::spinoff_prover]
proof fn lemma_digits_compare(i: int, j: int)
    requires
        0 <= i < j < 10000,
    ensures
        i / 1000 < j / 1000
            || (i / 1000 == j / 1000 && (i / 100) % 10 < (j / 100) % 10)
            || (i / 100 == j / 100 && (i / 10) % 10 < (j / 10) % 10)
            || (i / 10 == j / 10 && i % 10 < j % 10),
        0 <= i / 1000 < 10,
        0 <= j / 1000 < 10,
{
    assert(i / 1000 <= j / 1000);
    if i / 10 == j / 10 {
    } else if i / 100 == j / 100 {
        assert(i / 10 < j / 10);
        assert((i / 10) % 10 < (j / 10) % 10);
    } else if i / 1000 == j / 1000 {
        assert(i / 100 < j / 100);
        assert((i / 100) % 10 < (j / 100) % 10);
    }
}

/// Frame files sort in the order of their indices, below ten thousand frames:
/// a lower index gives a different name that comes first.
pub proof fn lemma_frame_names_follow_indices(i: nat, j: nat)
    requires
        i < j < 10000,
    ensures
        lex_le(frame_name(i), frame_name(j)),
        frame_name(i) != frame_name(j),
{
    let prefix = seq!['f', 'r', 'a', 'm', 'e', '_'];
    let suffix = seq!['.', 't', 'x', 't'];
    lemma_zero_padded_four(i);
    lemma_zero_padded_four(j);
    let a = four_digits(i as int) + suffix;
    let b = four_digits(j as int) + suffix;
    assert(frame_name(i) =~= prefix + a);
    assert(frame_name(j) =~= prefix + b);
    lemma_lex_common_prefix(prefix, a, b);
    lemma_digits_compare(i as int, j as int);
    let ii = i as int;
    let jj = j as int;
    lemma_digit_char_order(ii / 1000, jj / 1000);
    lemma_digit_char_order((ii / 100) % 10, (jj / 100) % 10);
    lemma_digit_char_order((ii / 10) % 10, (jj / 10) % 10);
    lemma_digit_char_order(ii % 10, jj % 10);
    if ii / 1000 < jj / 1000 {
        lemma_lex_first_difference(a, b, 0);
    } else if ii / 1000 == jj / 1000 && (ii / 100) % 10 < (jj / 100) % 10 {
        lemma_lex_first_difference(a, b, 1);
    } else if ii / 100 == jj / 100 && (ii / 10) % 10 < (jj / 10) % 10 {
        assert(ii / 1000 == jj / 1000 && (ii / 100) % 10 == (jj / 100) % 10);
        lemma_lex_first_difference(a, b, 2);
    } else {
        assert(ii / 1000 == jj / 1000 && (ii / 100) % 10 == (jj / 100) % 10 && (ii / 10) % 10 == (jj / 10) % 10);
        lemma_lex_first_difference(a, b, 3);
    }
    assert(prefix + a != prefix + b) by {
        if prefix + a == prefix + b {
            assert(a =~= (prefix + a).subrange(6, 14));
            assert(b =~= (prefix + b).subrange(6, 14));
        }
    }
}

} // verus!
