//! Filename ordering for directory loads: Natural order compares embedded
//! digit runs by numeric magnitude (so "9" sorts before "10"), Logical order
//! compares names byte by byte.

use vstd::prelude::*;
use crate::numeric::string_bytes;
use vstd::multiset::Multiset;

verus! {

/// The ordering applied to a directory's files before stitching.
#[derive(Clone, Copy, Debug, PartialEq, Eq, Structural)]
pub enum Sort {
    /// Embedded digit runs compare by numeric magnitude: "9" < "10".
    Natural,
    /// Plain byte-wise comparison: "10" < "9".
    Logical,
}

/// One unit of a name under Natural order: a digit run (stripped of leading
/// zeros) or a single non-digit byte.
pub enum NameToken {
    Num(Seq<u8>),
    Ch(u8),
}

pub open spec fn is_digit(b: u8) -> bool {
    48 <= b <= 57
}

/// Length of the leading digit run.
pub open spec fn run_len(s: Seq<u8>) -> nat
    decreases s.len(),
{
    if s.len() == 0 || !is_digit(s[0]) {
        0
    } else {
        1 + run_len(s.skip(1))
    }
}

pub proof fn lemma_run_len_le(s: Seq<u8>)
    ensures
        run_len(s) <= s.len(),
    decreases s.len(),
{
    if s.len() > 0 && is_digit(s[0]) {
        lemma_run_len_le(s.skip(1));
    }
}

/// A digit run whose first `k` bytes are digits and whose byte `k` is not
/// (or is past the end) runs for exactly `k` bytes.
pub proof fn lemma_run_len_chars(u: Seq<u8>, k: int)
    requires
        0 <= k <= u.len(),
        forall|t: int| 0 <= t < k ==> is_digit(#[trigger] u[t]),
        k == u.len() || !is_digit(u[k]),
    ensures
        run_len(u) == k,
    decreases k,
{
    if k > 0 {
        assert(forall|t: int| 0 <= t < k - 1 ==> u.skip(1)[t] == #[trigger] u[t + 1]);
        lemma_run_len_chars(u.skip(1), k - 1);
    }
}

/// Leading zeros removed.
pub open spec fn strip_zeros(s: Seq<u8>) -> Seq<u8>
    decreases s.len(),
{
    if s.len() > 0 && s[0] == 48 {
        strip_zeros(s.skip(1))
    } else {
        s
    }
}

/// A string whose first `k` bytes are zeros and whose byte `k` is not (or is
/// past the end) strips to its suffix from `k`.
pub proof fn lemma_strip_zeros_chars(u: Seq<u8>, k: int)
    requires
        0 <= k <= u.len(),
        forall|t: int| 0 <= t < k ==> #[trigger] u[t] == 48,
        k == u.len() || u[k] != 48,
    ensures
        strip_zeros(u) == u.skip(k),
    decreases k,
{
    if k > 0 {
        assert(forall|t: int| 0 <= t < k - 1 ==> u.skip(1)[t] == #[trigger] u[t + 1]);
        lemma_strip_zeros_chars(u.skip(1), k - 1);
        assert(u.skip(1).skip(k - 1) =~= u.skip(k));
    } else {
        assert(u.skip(0) =~= u);
    }
}

/// The tokens of a name, reading left to right.
pub open spec fn tokens(s: Seq<u8>) -> Seq<NameToken>
    decreases s.len(),
        when true
        via tokens_decreases
{
    if s.len() == 0 {
        Seq::empty()
    } else if is_digit(s[0]) {
        seq![NameToken::Num(strip_zeros(s.take(run_len(s) as int)))] + tokens(
            s.skip(run_len(s) as int),
        )
    } else {
        seq![NameToken::Ch(s[0])] + tokens(s.skip(1))
    }
}

#[via_fn]
proof fn tokens_decreases(s: Seq<u8>) {
    if s.len() > 0 && is_digit(s[0]) {
        lemma_run_len_le(s);
    }
}

/// Byte-wise lexicographic order.
pub open spec fn bytes_le(x: Seq<u8>, y: Seq<u8>) -> bool
    decreases x.len(),
{
    if x.len() == 0 {
        true
    } else if y.len() == 0 {
        false
    } else if x[0] < y[0] {
        true
    } else if x[0] > y[0] {
        false
    } else {
        bytes_le(x.skip(1), y.skip(1))
    }
}

/// Numeric order of two stripped digit runs: shorter runs are smaller, equal
/// lengths compare bytewise.
pub open spec fn num_le(x: Seq<u8>, y: Seq<u8>) -> bool {
    if x.len() != y.len() {
        x.len() < y.len()
    } else {
        bytes_le(x, y)
    }
}

/// Token order: digit runs sort numerically among themselves and sit between
/// the bytes below `'0'` and the bytes above `'9'`.
pub open spec fn token_le(a: NameToken, b: NameToken) -> bool {
    match (a, b) {
        (NameToken::Ch(x), NameToken::Ch(y)) => x <= y,
        (NameToken::Num(x), NameToken::Num(y)) => num_le(x, y),
        (NameToken::Num(_), NameToken::Ch(y)) => 48 <= y,
        (NameToken::Ch(x), NameToken::Num(_)) => x < 48,
    }
}

/// Lexicographic order on token lists.
pub open spec fn tokens_le(x: Seq<NameToken>, y: Seq<NameToken>) -> bool
    decreases x.len(),
{
    if x.len() == 0 {
        true
    } else if y.len() == 0 {
        false
    } else if !token_le(x[0], y[0]) {
        false
    } else if !token_le(y[0], x[0]) {
        true
    } else {
        tokens_le(x.skip(1), y.skip(1))
    }
}

/// The order a sort policy puts on two names' bytes.
pub open spec fn name_le(a: Seq<u8>, b: Seq<u8>, sort: Sort) -> bool {
    match sort {
        Sort::Natural => tokens_le(tokens(a), tokens(b)),
        Sort::Logical => bytes_le(a, b),
    }
}

/// An executable token: a digit run (stripped) or one non-digit byte.
struct ExecToken {
    is_num: bool,
    text: Vec<u8>,
}

impl ExecToken {
    spec fn view(&self) -> NameToken {
        if self.is_num {
            NameToken::Num(self.text@)
        } else {
            NameToken::Ch(self.text@[0])
        }
    }

    spec fn wf(&self) -> bool {
        !self.is_num ==> self.text@.len() == 1
    }
}

/// Tokenizes a name for Natural comparison.
fn tokenize(bytes: &[u8]) -> (out: Vec<ExecToken>)
    ensures
        out@.map_values(|t: ExecToken| t.view()) == tokens(bytes@),
        forall|i: int| 0 <= i < out@.len() ==> (#[trigger] out@[i]).wf(),
{
    let n = bytes.len();
    let mut out: Vec<ExecToken> = Vec::new();
    let mut i: usize = 0;
    proof {
        assert(bytes@.skip(0) =~= bytes@);
        assert(out@.map_values(|t: ExecToken| t.view()) =~= Seq::<NameToken>::empty());
    }
    while i < n
        invariant
            i <= n,
            n == bytes@.len(),
            forall|t: int| 0 <= t < out@.len() ==> (#[trigger] out@[t]).wf(),
            tokens(bytes@) == out@.map_values(|t: ExecToken| t.view()) + tokens(
                bytes@.skip(i as int),
            ),
        decreases n - i,
    {
        let ghost rem = bytes@.skip(i as int);
        let ghost out_pre = out@;
        proof {
            assert(rem[0] == bytes@[i as int]);
        }
        let b = bytes[i];
        let next: usize;
        if 48 <= b && b <= 57 {
            let mut j: usize = i + 1;
            while j < n && 48 <= bytes[j] && bytes[j] <= 57
                invariant
                    i < j <= n,
                    forall|t: int| i <= t < j ==> is_digit(#[trigger] bytes@[t]),
                decreases n - j,
            {
                j = j + 1;
            }
            let mut p: usize = i;
            while p < j && bytes[p] == 48
                invariant
                    i <= p <= j,
                    forall|t: int| i <= t < p ==> #[trigger] bytes@[t] == 48,
                decreases j - p,
            {
                p = p + 1;
            }
            let mut text: Vec<u8> = Vec::new();
            let mut q: usize = p;
            while q < j
                invariant
                    p <= q <= j <= n,
                    n == bytes@.len(),
                    text@ == bytes@.subrange(p as int, q as int),
                decreases j - q,
            {
                text.push(bytes[q]);
                proof {
                    assert(text@ =~= bytes@.subrange(p as int, q + 1));
                }
                q = q + 1;
            }
            proof {
                let k = j - i;
                assert(forall|t: int| 0 <= t < k ==> rem[t] == #[trigger] bytes@[i + t]);
                assert(forall|t: int| 0 <= t < k ==> is_digit(#[trigger] rem[t]));
                assert(k == rem.len() || !is_digit(rem[k]));
                lemma_run_len_chars(rem, k);
                let run = rem.take(k);
                assert(forall|t: int| 0 <= t < p - i ==> #[trigger] run[t] == 48);
                assert(p - i == run.len() || run[p - i] != 48);
                lemma_strip_zeros_chars(run, p - i);
                assert(run.skip(p - i) =~= bytes@.subrange(p as int, j as int));
                assert(text@ == strip_zeros(rem.take(run_len(rem) as int)));
            }
            out.push(ExecToken { is_num: true, text });
            next = j;
        } else {
            let mut text: Vec<u8> = Vec::new();
            text.push(b);
            proof {
                assert(!is_digit(rem[0]));
            }
            out.push(ExecToken { is_num: false, text });
            next = i + 1;
        }
        proof {
            let f = |t: ExecToken| t.view();
            assert(out@.drop_last() =~= out_pre);
            assert(out@.map_values(f) =~= out_pre.map_values(f).push(out@.last().view()));
            assert(rem.skip(next - i) =~= bytes@.skip(next as int));
            assert(tokens(rem) == seq![out@.last().view()] + tokens(rem.skip(next - i)));
            assert(tokens(bytes@) =~= out@.map_values(f) + tokens(bytes@.skip(next as int)));
        }
        i = next;
    }
    proof {
        assert(tokens(bytes@.skip(n as int)) =~= Seq::<NameToken>::empty());
        assert(out@.map_values(|t: ExecToken| t.view()) + Seq::<NameToken>::empty()
            =~= out@.map_values(|t: ExecToken| t.view()));
    }
    out
}

/// Byte-wise lexicographic comparison.
fn bytes_le_exec(x: &Vec<u8>, y: &Vec<u8>) -> (r: bool)
    ensures
        r == bytes_le(x@, y@),
{
    let mut i: usize = 0;
    let xn = x.len();
    let yn = y.len();
    proof {
        assert(x@.skip(0) =~= x@);
        assert(y@.skip(0) =~= y@);
    }
    while i < xn && i < yn
        invariant
            i <= xn,
            i <= yn,
            xn == x@.len(),
            yn == y@.len(),
            bytes_le(x@, y@) == bytes_le(x@.skip(i as int), y@.skip(i as int)),
        decreases xn - i,
    {
        let a = x[i];
        let b = y[i];
        proof {
            assert(x@.skip(i as int)[0] == a && y@.skip(i as int)[0] == b);
            assert(x@.skip(i as int).skip(1) =~= x@.skip(i + 1));
            assert(y@.skip(i as int).skip(1) =~= y@.skip(i + 1));
        }
        if a < b {
            return true;
        }
        if a > b {
            return false;
        }
        i = i + 1;
    }
    proof {
        if i >= xn {
            assert(x@.skip(i as int).len() == 0);
        } else {
            assert(y@.skip(i as int).len() == 0);
            assert(x@.skip(i as int).len() > 0);
        }
    }
    i >= xn
}

/// Token comparison under the Natural order.
fn token_le_exec(a: &ExecToken, b: &ExecToken) -> (r: bool)
    requires
        a.wf(),
        b.wf(),
    ensures
        r == token_le(a.view(), b.view()),
{
    if a.is_num && b.is_num {
        if a.text.len() != b.text.len() {
            a.text.len() < b.text.len()
        } else {
            bytes_le_exec(&a.text, &b.text)
        }
    } else if a.is_num {
        48 <= b.text[0]
    } else if b.is_num {
        a.text[0] < 48
    } else {
        a.text[0] <= b.text[0]
    }
}

/// Token-list comparison under the Natural order.
fn tokens_le_exec(x: &Vec<ExecToken>, y: &Vec<ExecToken>) -> (r: bool)
    requires
        forall|i: int| 0 <= i < x@.len() ==> (#[trigger] x@[i]).wf(),
        forall|i: int| 0 <= i < y@.len() ==> (#[trigger] y@[i]).wf(),
    ensures
        r == tokens_le(
            x@.map_values(|t: ExecToken| t.view()),
            y@.map_values(|t: ExecToken| t.view()),
        ),
{
    let ghost xs = x@.map_values(|t: ExecToken| t.view());
    let ghost ys = y@.map_values(|t: ExecToken| t.view());
    let mut i: usize = 0;
    let xn = x.len();
    let yn = y.len();
    proof {
        assert(xs.skip(0) =~= xs);
        assert(ys.skip(0) =~= ys);
    }
    while i < xn && i < yn
        invariant
            i <= xn,
            i <= yn,
            xn == x@.len(),
            yn == y@.len(),
            xs == x@.map_values(|t: ExecToken| t.view()),
            ys == y@.map_values(|t: ExecToken| t.view()),
            tokens_le(xs, ys) == tokens_le(xs.skip(i as int), ys.skip(i as int)),
        decreases xn - i,
    {
        proof {
            assert(xs.skip(i as int)[0] == x@[i as int].view());
            assert(ys.skip(i as int)[0] == y@[i as int].view());
            assert(xs.skip(i as int).skip(1) =~= xs.skip(i + 1));
            assert(ys.skip(i as int).skip(1) =~= ys.skip(i + 1));
        }
        let ab = token_le_exec(&x[i], &y[i]);
        let ba = token_le_exec(&y[i], &x[i]);
        if !ab {
            return false;
        }
        if !ba {
            return true;
        }
        i = i + 1;
    }
    proof {
        if i >= xn {
            assert(xs.skip(i as int).len() == 0);
        } else {
            assert(ys.skip(i as int).len() == 0);
            assert(xs.skip(i as int).len() > 0);
        }
    }
    i >= xn
}

/// Whether `a` sorts at or before `b` under the policy.
pub fn name_le_exec(a: &String, b: &String, sort: Sort) -> (r: bool)
    ensures
        r == name_le(string_bytes(*a), string_bytes(*b), sort),
{
    match sort {
        Sort::Natural => {
            let ta = tokenize(a.as_str().as_bytes());
            let tb = tokenize(b.as_str().as_bytes());
            tokens_le_exec(&ta, &tb)
        },
        Sort::Logical => {
            let mut va: Vec<u8> = Vec::new();
            let mut vb: Vec<u8> = Vec::new();
            va.extend_from_slice(a.as_str().as_bytes());
            vb.extend_from_slice(b.as_str().as_bytes());
            proof {
                assert(va@ =~= string_bytes(*a));
                assert(vb@ =~= string_bytes(*b));
            }
            bytes_le_exec(&va, &vb)
        },
    }
}

/// `s` with `x` inserted after every element that sorts at or before it.
pub open spec fn insert_name(x: String, s: Seq<String>, sort: Sort) -> Seq<String>
    decreases s.len(),
{
    if s.len() == 0 {
        seq![x]
    } else if name_le(string_bytes(s.last()), string_bytes(x), sort) {
        s.push(x)
    } else {
        insert_name(x, s.drop_last(), sort).push(s.last())
    }
}

/// The names in stable insertion-sorted order.
pub open spec fn spec_sorted(s: Seq<String>, sort: Sort) -> Seq<String>
    decreases s.len(),
{
    if s.len() == 0 {
        Seq::empty()
    } else {
        insert_name(s.last(), spec_sorted(s.drop_last(), sort), sort)
    }
}

pub proof fn lemma_bytes_le_total(x: Seq<u8>, y: Seq<u8>)
    ensures
        bytes_le(x, y) || bytes_le(y, x),
    decreases x.len(),
{
    if x.len() > 0 && y.len() > 0 && x[0] == y[0] {
        lemma_bytes_le_total(x.skip(1), y.skip(1));
    }
}

pub proof fn lemma_tokens_le_total(x: Seq<NameToken>, y: Seq<NameToken>)
    ensures
        tokens_le(x, y) || tokens_le(y, x),
    decreases x.len(),
{
    if x.len() > 0 && y.len() > 0 {
        match (x[0], y[0]) {
            (NameToken::Num(u), NameToken::Num(v)) => {
                lemma_bytes_le_total(u, v);
            },
            _ => {
            },
        }
        if token_le(x[0], y[0]) && token_le(y[0], x[0]) {
            lemma_tokens_le_total(x.skip(1), y.skip(1));
        }
    }
}

/// Either policy orders any two names one way or the other.
pub proof fn lemma_name_le_total(a: Seq<u8>, b: Seq<u8>, sort: Sort)
    ensures
        name_le(a, b, sort) || name_le(b, a, sort),
{
    match sort {
        Sort::Natural => lemma_tokens_le_total(tokens(a), tokens(b)),
        Sort::Logical => lemma_bytes_le_total(a, b),
    }
}

/// Whether consecutive names are in order under the policy.
pub open spec fn sorted_by(s: Seq<String>, sort: Sort) -> bool {
    forall|t: int|
        0 <= t < s.len() - 1 ==> name_le(
            string_bytes(#[trigger] s[t]),
            string_bytes(s[t + 1]),
            sort,
        )
}

/// Inserting grows the list by one, and the new last element is the inserted
/// name or the old last element.
proof fn lemma_insert_name_last(x: String, s: Seq<String>, sort: Sort)
    ensures
        ({
            let r = insert_name(x, s, sort);
            &&& r.len() == s.len() + 1
            &&& (r.last() == x || (s.len() > 0 && r.last() == s.last()))
        }),
    decreases s.len(),
{
    if s.len() > 0 && !name_le(string_bytes(s.last()), string_bytes(x), sort) {
        lemma_insert_name_last(x, s.drop_last(), sort);
    }
}

/// Inserting into an ordered list keeps it ordered.
proof fn lemma_insert_name_sorted(x: String, s: Seq<String>, sort: Sort)
    requires
        sorted_by(s, sort),
    ensures
        sorted_by(insert_name(x, s, sort), sort),
    decreases s.len(),
{
    let r = insert_name(x, s, sort);
    lemma_insert_name_last(x, s, sort);
    if s.len() == 0 {
    } else if name_le(string_bytes(s.last()), string_bytes(x), sort) {
        assert(r == s.push(x));
        assert(forall|t: int| 0 <= t < s.len() ==> r[t] == #[trigger] s[t]);
        assert(r[s.len() as int] == x);
    } else {
        let dl = s.drop_last();
        assert(forall|t: int| 0 <= t < dl.len() ==> #[trigger] dl[t] == s[t]);
        lemma_insert_name_sorted(x, dl, sort);
        lemma_insert_name_last(x, dl, sort);
        lemma_name_le_total(string_bytes(s.last()), string_bytes(x), sort);
        let r0 = insert_name(x, dl, sort);
        assert(r == r0.push(s.last()));
        assert(forall|t: int| 0 <= t < r0.len() ==> r[t] == #[trigger] r0[t]);
        assert(r[r.len() - 1] == s.last());
        if r0.last() == x {
            assert(name_le(string_bytes(x), string_bytes(s.last()), sort));
        } else {
            assert(dl.len() > 0 && r0.last() == dl.last());
            assert(name_le(string_bytes(s[s.len() - 2]), string_bytes(s.last()), sort));
        }
        assert(name_le(string_bytes(r[r.len() - 2]), string_bytes(r[r.len() - 1]), sort));
    }
}

/// The sorted names really are in order under the chosen policy.
pub proof fn lemma_sort_orders(s: Seq<String>, sort: Sort)
    ensures
        sorted_by(spec_sorted(s, sort), sort),
    decreases s.len(),
{
    if s.len() > 0 {
        lemma_sort_orders(s.drop_last(), sort);
        lemma_insert_name_sorted(s.last(), spec_sorted(s.drop_last(), sort), sort);
    }
}

/// The sorted names are exactly the input names, reordered.
pub proof fn lemma_sort_permutes(s: Seq<String>, sort: Sort)
    ensures
        spec_sorted(s, sort).to_multiset() == s.to_multiset(),
    decreases s.len(),
{
    broadcast use vstd::seq_lib::group_to_multiset_ensures;

    if s.len() > 0 {
        lemma_sort_permutes(s.drop_last(), sort);
        lemma_insert_name_multiset(s.last(), spec_sorted(s.drop_last(), sort), sort);
        assert(s.drop_last().push(s.last()) =~= s);
    }
}

proof fn lemma_insert_name_multiset(x: String, s: Seq<String>, sort: Sort)
    ensures
        insert_name(x, s, sort).to_multiset() == s.to_multiset().insert(x),
    decreases s.len(),
{
    broadcast use vstd::seq_lib::group_to_multiset_ensures;

    if s.len() == 0 {
        assert(insert_name(x, s, sort) =~= Seq::<String>::empty().push(x));
        assert(Seq::<String>::empty().to_multiset() =~= Multiset::<String>::empty());
        assert(s.to_multiset().insert(x) =~= Multiset::<String>::empty().insert(x));
    } else if name_le(string_bytes(s.last()), string_bytes(x), sort) {
    } else {
        let dl = s.drop_last();
        lemma_insert_name_multiset(x, dl, sort);
        assert(dl.push(s.last()) =~= s);
        assert(insert_name(x, dl, sort).push(s.last()).to_multiset() == insert_name(
            x,
            dl,
            sort,
        ).to_multiset().insert(s.last()));
        assert(dl.to_multiset().insert(x).insert(s.last()) =~= dl.to_multiset().insert(
            s.last(),
        ).insert(x));
    }
}

/// Inserting lands `x` at the position `p` that the scan from the end finds.
proof fn lemma_insert_name_at(x: String, s: Seq<String>, sort: Sort, p: int)
    requires
        0 <= p <= s.len(),
        p == 0 || name_le(string_bytes(s[p - 1]), string_bytes(x), sort),
        forall|i: int|
            p <= i < s.len() ==> !name_le(string_bytes(#[trigger] s[i]), string_bytes(x), sort),
    ensures
        insert_name(x, s, sort) == s.take(p) + seq![x] + s.skip(p),
    decreases s.len(),
{
    if s.len() == 0 {
        assert(insert_name(x, s, sort) =~= s.take(p) + seq![x] + s.skip(p));
    } else if name_le(string_bytes(s.last()), string_bytes(x), sort) {
        assert(p == s.len());
        assert(s.take(p) =~= s);
        assert(insert_name(x, s, sort) =~= s.take(p) + seq![x] + s.skip(p));
    } else {
        assert(p < s.len());
        assert(forall|i: int|
            p <= i < s.len() - 1 ==> (#[trigger] s.drop_last()[i]) == s[i]);
        lemma_insert_name_at(x, s.drop_last(), sort, p);
        assert(s.drop_last().take(p) =~= s.take(p));
        assert(insert_name(x, s, sort) =~= s.take(p) + seq![x] + s.skip(p));
    }
}

/// Inserts `x` into the sorted vector at its stable position.
fn insert_sorted(r: &mut Vec<String>, x: String, sort: Sort)
    ensures
        final(r)@ == insert_name(x, old(r)@, sort),
{
    let mut pos: usize = r.len();
    while pos > 0 && !name_le_exec(&r[pos - 1], &x, sort)
        invariant
            pos <= r@.len(),
            r@ == old(r)@,
            forall|i: int|
                pos <= i < r@.len() ==> !name_le(
                    string_bytes(#[trigger] r@[i]),
                    string_bytes(x),
                    sort,
                ),
        decreases pos,
    {
        pos = pos - 1;
    }
    proof {
        lemma_insert_name_at(x, r@, sort, pos as int);
    }
    r.insert(pos, x);
    proof {
        assert(r@ =~= old(r)@.take(pos as int) + seq![x] + old(r)@.skip(pos as int));
    }
}

/// Sorts the file names under the chosen policy, stably, so that the result
/// is a pure function of the input order and the policy.
pub fn sort_paths(names: Vec<String>, sort: Sort) -> (r: Vec<String>)
    ensures
        r@ == spec_sorted(names@, sort),
{
    let mut r: Vec<String> = Vec::new();
    let mut i: usize = 0;
    let n = names.len();
    proof {
        assert(spec_sorted(names@.take(0), sort) =~= r@);
    }
    while i < n
        invariant
            i <= n,
            n == names@.len(),
            r@ == spec_sorted(names@.take(i as int), sort),
        decreases n - i,
    {
        proof {
            assert(names@.take(i + 1).drop_last() =~= names@.take(i as int));
            assert(names@.take(i + 1).last() == names@[i as int]);
        }
        let x = names[i].clone();
        insert_sorted(&mut r, x, sort);
        i = i + 1;
    }
    proof {
        assert(names@.take(n as int) =~= names@);
    }
    r
}

} // verus!
