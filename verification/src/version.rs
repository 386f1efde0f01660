//! Debian-policy version ordering.
//!
//! A version string is `[epoch:]upstream[-revision]`: the epoch is the
//! numeric part before the first `:`, the revision is everything after
//! the last `-` of the remainder.  Versions compare as the tuple
//! (epoch, upstream, revision).  The upstream and revision strings are
//! tokenized into alternating non-digit and digit parts; non-digit
//! parts compare lexically with `~` before everything (even the end of
//! the part) and letters before non-letters, digit parts compare
//! numerically.

use vstd::prelude::*;

verus! {

broadcast use vstd::utf8::char_u32_cast;

/// Decimal digit, `'0'` through `'9'`.
pub open spec fn is_digit(c: char) -> bool {
    48 <= c as u32 && c as u32 <= 57
}

pub open spec fn digit_val(c: char) -> int {
    c as u32 - 48
}

pub open spec fn all_digits(s: Seq<char>) -> bool {
    forall|i: int| 0 <= i < s.len() ==> is_digit(s[i])
}

/// Numeric value of a digit string, most significant digit first.
pub open spec fn num_val(s: Seq<char>) -> int
    decreases s.len(),
{
    if s.len() == 0 {
        0
    } else {
        num_val(s.drop_last()) * 10 + digit_val(s.last())
    }
}

pub open spec fn pow10(n: nat) -> int
    decreases n,
{
    if n == 0 {
        1
    } else {
        10 * pow10((n - 1) as nat)
    }
}

/// Three-way comparison of integers as -1, 0 or 1.
pub open spec fn cmp3(a: int, b: int) -> int {
    if a < b {
        -1
    } else if a > b {
        1
    } else {
        0
    }
}

/// Numeric comparison of two digit strings.
pub open spec fn num_cmp(a: Seq<char>, b: Seq<char>) -> int {
    cmp3(num_val(a), num_val(b))
}

pub open spec fn is_alpha(c: char) -> bool {
    (65 <= c as u32 && c as u32 <= 90) || (97 <= c as u32 && c as u32 <= 122)
}

/// Debian lexical rank of a character inside a non-digit part:
/// `~` sorts before the end of the part (rank 0), letters sort in
/// ASCII order, and every other character sorts after all letters.
pub open spec fn char_order(c: char) -> int {
    if c as u32 == 126 {
        -1
    } else if is_alpha(c) {
        c as u32 as int
    } else {
        c as u32 + 0x200000
    }
}

pub open spec fn head_order(s: Seq<char>) -> int {
    if s.len() == 0 {
        0
    } else {
        char_order(s[0])
    }
}

pub open spec fn seq_tail(s: Seq<char>) -> Seq<char> {
    if s.len() == 0 {
        s
    } else {
        s.skip(1)
    }
}

/// Lexical comparison of two non-digit parts under `char_order`,
/// the end of a part ranking between `~` and all other characters.
pub open spec fn lex_cmp(a: Seq<char>, b: Seq<char>) -> int
    decreases a.len() + b.len(),
{
    if a.len() == 0 && b.len() == 0 {
        0
    } else {
        let oa = head_order(a);
        let ob = head_order(b);
        if oa < ob {
            -1
        } else if oa > ob {
            1
        } else {
            lex_cmp(seq_tail(a), seq_tail(b))
        }
    }
}

/// Length of the leading run of non-digit characters.
pub open spec fn nd_len(s: Seq<char>) -> int
    decreases s.len(),
{
    if s.len() == 0 {
        0
    } else if is_digit(s[0]) {
        0
    } else {
        1 + nd_len(s.skip(1))
    }
}

/// Length of the leading run of digit characters.
pub open spec fn d_len(s: Seq<char>) -> int
    decreases s.len(),
{
    if s.len() == 0 {
        0
    } else if !is_digit(s[0]) {
        0
    } else {
        1 + d_len(s.skip(1))
    }
}

proof fn lemma_nd_len(s: Seq<char>)
    ensures
        0 <= nd_len(s) <= s.len(),
        forall|i: int| 0 <= i < nd_len(s) ==> !is_digit(s[i]),
        nd_len(s) < s.len() ==> is_digit(s[nd_len(s)]),
    decreases s.len(),
{
    if s.len() > 0 && !is_digit(s[0]) {
        lemma_nd_len(s.skip(1));
        assert forall|i: int| 0 <= i < nd_len(s) implies !is_digit(s[i]) by {
            if i > 0 {
                assert(s.skip(1)[i - 1] == s[i]);
            }
        }
        if nd_len(s) < s.len() {
            assert(s.skip(1)[nd_len(s) - 1] == s[nd_len(s)]);
        }
    }
}

proof fn lemma_d_len(s: Seq<char>)
    ensures
        0 <= d_len(s) <= s.len(),
        forall|i: int| 0 <= i < d_len(s) ==> is_digit(s[i]),
        d_len(s) < s.len() ==> !is_digit(s[d_len(s)]),
        all_digits(s.take(d_len(s))),
    decreases s.len(),
{
    if s.len() > 0 && is_digit(s[0]) {
        lemma_d_len(s.skip(1));
        assert forall|i: int| 0 <= i < d_len(s) implies is_digit(s[i]) by {
            if i > 0 {
                assert(s.skip(1)[i - 1] == s[i]);
            }
        }
        if d_len(s) < s.len() {
            assert(s.skip(1)[d_len(s) - 1] == s[d_len(s)]);
        }
    }
    assert forall|i: int| 0 <= i < s.take(d_len(s)).len() implies is_digit(
        s.take(d_len(s))[i],
    ) by {
        assert(s.take(d_len(s))[i] == s[i]);
    }
}

proof fn lemma_char_order_nonzero(c: char)
    ensures
        char_order(c) != 0,
{
}

proof fn lemma_lex_cmp_one_empty(b: Seq<char>)
    requires
        b.len() > 0,
    ensures
        lex_cmp(Seq::<char>::empty(), b) != 0,
        lex_cmp(b, Seq::<char>::empty()) != 0,
{
    lemma_char_order_nonzero(b[0]);
}

/// Comparison of upstream-version or revision strings: alternating
/// non-digit and digit parts, first difference decides.
pub open spec fn cmp_ver(a: Seq<char>, b: Seq<char>) -> int
    decreases a.len() + b.len() via cmp_ver_decreases
{
    if a.len() == 0 && b.len() == 0 {
        0
    } else {
        let na = nd_len(a);
        let nb = nd_len(b);
        let c1 = lex_cmp(a.take(na), b.take(nb));
        if c1 != 0 {
            c1
        } else {
            let a1 = a.skip(na);
            let b1 = b.skip(nb);
            let da = d_len(a1);
            let db = d_len(b1);
            let c2 = num_cmp(a1.take(da), b1.take(db));
            if c2 != 0 {
                c2
            } else {
                cmp_ver(a1.skip(da), b1.skip(db))
            }
        }
    }
}

#[via_fn]
proof fn cmp_ver_decreases(a: Seq<char>, b: Seq<char>) {
    lemma_nd_len(a);
    lemma_nd_len(b);
    lemma_d_len(a.skip(nd_len(a)));
    lemma_d_len(b.skip(nd_len(b)));
    if !(a.len() == 0 && b.len() == 0) {
        if a.len() == 0 && nd_len(b) > 0 {
            assert(a.take(nd_len(a)) =~= Seq::<char>::empty());
            lemma_lex_cmp_one_empty(b.take(nd_len(b)));
        }
        if b.len() == 0 && nd_len(a) > 0 {
            assert(b.take(nd_len(b)) =~= Seq::<char>::empty());
            lemma_lex_cmp_one_empty(a.take(nd_len(a)));
        }
    }
}

/// Index of the first `:`, or -1 when there is none.
pub open spec fn find_colon(s: Seq<char>) -> int
    decreases s.len(),
{
    if s.len() == 0 {
        -1
    } else if s[0] == ':' {
        0
    } else {
        let r = find_colon(s.skip(1));
        if r < 0 {
            -1
        } else {
            1 + r
        }
    }
}

/// Index of the last `-`, or -1 when there is none.
pub open spec fn rfind_dash(s: Seq<char>) -> int
    decreases s.len(),
{
    if s.len() == 0 {
        -1
    } else if s.last() == '-' {
        s.len() - 1
    } else {
        rfind_dash(s.drop_last())
    }
}

proof fn lemma_find_colon(s: Seq<char>)
    ensures
        -1 <= find_colon(s) < s.len(),
        find_colon(s) == -1 ==> forall|i: int| 0 <= i < s.len() ==> s[i] != ':',
        find_colon(s) >= 0 ==> 0 <= find_colon(s) < s.len() && s[find_colon(s)] == ':'
            && forall|i: int| 0 <= i < find_colon(s) ==> s[i] != ':',
    decreases s.len(),
{
    if s.len() > 0 && s[0] != ':' {
        lemma_find_colon(s.skip(1));
        assert forall|i: int| 1 <= i < s.len() implies s.skip(1)[i - 1] == s[i] by {}
    }
}

proof fn lemma_rfind_dash(s: Seq<char>)
    ensures
        -1 <= rfind_dash(s) < s.len(),
        rfind_dash(s) == -1 ==> forall|i: int| 0 <= i < s.len() ==> s[i] != '-',
        rfind_dash(s) >= 0 ==> 0 <= rfind_dash(s) < s.len() && s[rfind_dash(s)] == '-'
            && forall|i: int| rfind_dash(s) < i < s.len() ==> s[i] != '-',
    decreases s.len(),
{
    if s.len() > 0 && s.last() != '-' {
        lemma_rfind_dash(s.drop_last());
        assert forall|i: int| 0 <= i < s.len() - 1 implies s.drop_last()[i] == s[i] by {}
    }
}

/// The digits of the epoch: the leading digit run of the part before
/// the first `:`; empty when there is no epoch.  A malformed epoch
/// counts only by its leading digits.
pub open spec fn epoch_digits(s: Seq<char>) -> Seq<char> {
    let c = find_colon(s);
    if c >= 0 {
        let e = s.take(c);
        e.take(d_len(e))
    } else {
        Seq::<char>::empty()
    }
}

pub open spec fn after_epoch(s: Seq<char>) -> Seq<char> {
    let c = find_colon(s);
    if c >= 0 {
        s.skip(c + 1)
    } else {
        s
    }
}

pub open spec fn upstream_part(s: Seq<char>) -> Seq<char> {
    let r = after_epoch(s);
    let d = rfind_dash(r);
    if d >= 0 {
        r.take(d)
    } else {
        r
    }
}

pub open spec fn revision_part(s: Seq<char>) -> Seq<char> {
    let r = after_epoch(s);
    let d = rfind_dash(r);
    if d >= 0 {
        r.skip(d + 1)
    } else {
        Seq::<char>::empty()
    }
}

/// Debian ordering of two whole version strings: epoch first, then
/// upstream version, then revision.  Returns -1, 0 or 1.
pub open spec fn version_cmp(a: Seq<char>, b: Seq<char>) -> int {
    let c1 = num_cmp(epoch_digits(a), epoch_digits(b));
    if c1 != 0 {
        c1
    } else {
        let c2 = cmp_ver(upstream_part(a), upstream_part(b));
        if c2 != 0 {
            c2
        } else {
            cmp_ver(revision_part(a), revision_part(b))
        }
    }
}

proof fn lemma_num_val_bound(s: Seq<char>)
    requires
        all_digits(s),
    ensures
        0 <= num_val(s) < pow10(s.len() as nat),
    decreases s.len(),
{
    if s.len() > 0 {
        assert(all_digits(s.drop_last())) by {
            assert(forall|i: int| 0 <= i < s.len() - 1 ==> s.drop_last()[i] == s[i]);
        }
        lemma_num_val_bound(s.drop_last());
        assert(is_digit(s.last()));
    }
}

/// Peeling the most significant digit:
/// `num_val(s) == digit_val(s[0]) * pow10(len - 1) + num_val(s.skip(1))`.
proof fn lemma_num_val_head(s: Seq<char>)
    requires
        s.len() > 0,
    ensures
        num_val(s) == digit_val(s[0]) * pow10((s.len() - 1) as nat) + num_val(s.skip(1)),
    decreases s.len(),
{
    if s.len() == 1 {
        assert(s.drop_last() =~= Seq::<char>::empty());
        assert(s.skip(1) =~= Seq::<char>::empty());
        assert(s.last() == s[0]);
    } else {
        lemma_num_val_head(s.drop_last());
        assert(s.drop_last()[0] == s[0]);
        assert(s.drop_last().skip(1) =~= s.skip(1).drop_last());
        assert(s.skip(1).last() == s.last());
        let n = (s.len() - 2) as nat;
        let d = digit_val(s[0]);
        assert(num_val(s.drop_last()) == d * pow10(n) + num_val(s.skip(1).drop_last()));
        assert(num_val(s) == (d * pow10(n) + num_val(s.skip(1).drop_last())) * 10 + digit_val(
            s.last(),
        ));
        assert((d * pow10(n) + num_val(s.skip(1).drop_last())) * 10 == d * (10 * pow10(n))
            + num_val(s.skip(1).drop_last()) * 10) by (nonlinear_arith);
        assert(pow10((s.len() - 1) as nat) == 10 * pow10(n));
    }
}

proof fn lemma_num_val_strip_zero(s: Seq<char>)
    requires
        s.len() > 0,
        digit_val(s[0]) == 0,
    ensures
        num_val(s) == num_val(s.skip(1)),
{
    lemma_num_val_head(s);
}

proof fn lemma_num_val_lower(s: Seq<char>)
    requires
        all_digits(s),
        s.len() > 0,
        digit_val(s[0]) != 0,
    ensures
        num_val(s) >= pow10((s.len() - 1) as nat),
{
    lemma_num_val_head(s);
    assert(all_digits(s.skip(1))) by {
        assert(forall|i: int| 0 <= i < s.len() - 1 ==> s.skip(1)[i] == s[i + 1]);
    }
    lemma_num_val_bound(s.skip(1));
    assert(digit_val(s[0]) >= 1);
    let p = pow10((s.len() - 1) as nat);
    assert(p >= 1) by {
        lemma_pow10_pos((s.len() - 1) as nat);
    }
    assert(digit_val(s[0]) * p >= 1 * p) by (nonlinear_arith)
        requires
            digit_val(s[0]) >= 1,
            p >= 1,
    ;
}

proof fn lemma_pow10_pos(n: nat)
    ensures
        pow10(n) >= 1,
    decreases n,
{
    if n > 0 {
        lemma_pow10_pos((n - 1) as nat);
    }
}

proof fn lemma_pow10_mono(m: nat, n: nat)
    requires
        m <= n,
    ensures
        pow10(m) <= pow10(n),
    decreases n,
{
    if m < n {
        lemma_pow10_mono(m, (n - 1) as nat);
        lemma_pow10_pos((n - 1) as nat);
    }
}

/// Equal-length digit strings compare by their first differing digit.
proof fn lemma_num_val_first_diff(a: Seq<char>, b: Seq<char>, k: int)
    requires
        all_digits(a),
        all_digits(b),
        a.len() == b.len(),
        0 <= k < a.len(),
        forall|i: int| 0 <= i < k ==> digit_val(a[i]) == digit_val(b[i]),
        digit_val(a[k]) < digit_val(b[k]),
    ensures
        num_val(a) < num_val(b),
    decreases k,
{
    lemma_num_val_head(a);
    lemma_num_val_head(b);
    let p = pow10((a.len() - 1) as nat);
    if k == 0 {
        assert(all_digits(a.skip(1)) && all_digits(b.skip(1))) by {
            assert(forall|i: int| 0 <= i < a.len() - 1 ==> a.skip(1)[i] == a[i + 1]);
            assert(forall|i: int| 0 <= i < b.len() - 1 ==> b.skip(1)[i] == b[i + 1]);
        }
        lemma_num_val_bound(a.skip(1));
        lemma_num_val_bound(b.skip(1));
        let da = digit_val(a[0]);
        let db = digit_val(b[0]);
        assert(da * p + p <= db * p) by (nonlinear_arith)
            requires
                da + 1 <= db,
                p >= 0,
        ;
    } else {
        assert(a.skip(1).len() == b.skip(1).len());
        assert(all_digits(a.skip(1)) && all_digits(b.skip(1))) by {
            assert(forall|i: int| 0 <= i < a.len() - 1 ==> a.skip(1)[i] == a[i + 1]);
            assert(forall|i: int| 0 <= i < b.len() - 1 ==> b.skip(1)[i] == b[i + 1]);
        }
        assert(forall|i: int| 0 <= i < k - 1 ==> digit_val(a.skip(1)[i]) == digit_val(
            b.skip(1)[i],
        )) by {
            assert(forall|i: int| 0 <= i < k - 1 ==> a.skip(1)[i] == a[i + 1]);
            assert(forall|i: int| 0 <= i < k - 1 ==> b.skip(1)[i] == b[i + 1]);
        }
        assert(a.skip(1)[k - 1] == a[k]);
        assert(b.skip(1)[k - 1] == b[k]);
        lemma_num_val_first_diff(a.skip(1), b.skip(1), k - 1);
        assert(digit_val(a[0]) == digit_val(b[0]));
    }
}

/// Digit strings of equal length with pointwise equal digits have
/// equal numeric values.
proof fn lemma_num_val_digit_eq(a: Seq<char>, b: Seq<char>)
    requires
        a.len() == b.len(),
        forall|i: int| 0 <= i < a.len() ==> digit_val(a[i]) == digit_val(b[i]),
    ensures
        num_val(a) == num_val(b),
    decreases a.len(),
{
    if a.len() > 0 {
        assert(forall|i: int| 0 <= i < a.len() - 1 ==> a.drop_last()[i] == a[i]);
        assert(forall|i: int| 0 <= i < b.len() - 1 ==> b.drop_last()[i] == b[i]);
        lemma_num_val_digit_eq(a.drop_last(), b.drop_last());
        assert(digit_val(a.last()) == digit_val(b.last()));
    }
}

fn chars_of(s: &str) -> (v: Vec<char>)
    ensures
        v@ == s@,
{
    let n = s.unicode_len();
    let mut v: Vec<char> = Vec::new();
    let mut i: usize = 0;
    while i < n
        invariant
            n == s@.len(),
            i <= n,
            v@ == s@.take(i as int),
        decreases n - i,
    {
        v.push(s.get_char(i));
        i = i + 1;
        proof {
            assert(v@ =~= s@.take(i as int));
        }
    }
    proof {
        assert(s@.take(n as int) =~= s@);
    }
    v
}

fn subvec(v: &Vec<char>, lo: usize, hi: usize) -> (r: Vec<char>)
    requires
        lo <= hi <= v@.len(),
    ensures
        r@ == v@.subrange(lo as int, hi as int),
{
    let mut r: Vec<char> = Vec::new();
    let mut i: usize = lo;
    while i < hi
        invariant
            lo <= i <= hi <= v@.len(),
            r@ == v@.subrange(lo as int, i as int),
        decreases hi - i,
    {
        r.push(v[i]);
        i = i + 1;
        proof {
            assert(r@ =~= v@.subrange(lo as int, i as int));
        }
    }
    r
}

fn is_digit_exec(c: char) -> (r: bool)
    ensures
        r == is_digit(c),
{
    let u = c as u32;
    48 <= u && u <= 57
}

/// Length of the leading non-digit run, from position `from`.
fn nd_len_from(v: &Vec<char>, from: usize) -> (r: usize)
    requires
        from <= v@.len(),
    ensures
        from + r <= v@.len(),
        r == nd_len(v@.skip(from as int)),
{
    let n = v.len();
    let mut i: usize = from;
    while i < n && !is_digit_exec(v[i])
        invariant
            from <= i <= n == v@.len(),
            forall|j: int| from <= j < i ==> !is_digit(v@[j]),
        decreases n - i,
    {
        i = i + 1;
    }
    proof {
        lemma_run_len(v@.skip(from as int), (i - from) as int, false);
    }
    i - from
}

/// Length of the leading digit run, from position `from`.
fn d_len_from(v: &Vec<char>, from: usize) -> (r: usize)
    requires
        from <= v@.len(),
    ensures
        from + r <= v@.len(),
        r == d_len(v@.skip(from as int)),
{
    let n = v.len();
    let mut i: usize = from;
    while i < n && is_digit_exec(v[i])
        invariant
            from <= i <= n == v@.len(),
            forall|j: int| from <= j < i ==> is_digit(v@[j]),
        decreases n - i,
    {
        i = i + 1;
    }
    proof {
        lemma_run_len(v@.skip(from as int), (i - from) as int, true);
    }
    i - from
}

/// `nd_len` and `d_len` are each characterized by their run: `k` is the
/// run length iff everything before `k` is in the run and `k` is either
/// the end or the first character out of it.
proof fn lemma_run_len(s: Seq<char>, k: int, digits: bool)
    requires
        0 <= k <= s.len(),
        forall|j: int| 0 <= j < k ==> is_digit(s[j]) == digits,
        k < s.len() ==> is_digit(s[k]) != digits,
    ensures
        digits ==> d_len(s) == k,
        !digits ==> nd_len(s) == k,
    decreases s.len(),
{
    if s.len() > 0 && k > 0 {
        assert(forall|j: int| 0 <= j < k - 1 ==> s.skip(1)[j] == s[j + 1]);
        if k - 1 < s.skip(1).len() {
            assert(s.skip(1)[k - 1] == s[k]);
        }
        lemma_run_len(s.skip(1), k - 1, digits);
    }
}

/// Debian lexical rank of one character, as `char_order`.
fn char_order_exec(c: char) -> (r: i64)
    ensures
        r as int == char_order(c),
{
    let u = c as u32;
    if u == 126 {
        -1
    } else if (65 <= u && u <= 90) || (97 <= u && u <= 122) {
        u as i64
    } else {
        u as i64 + 0x200000
    }
}

/// Lexical comparison of the non-digit parts `a[alo..ahi]` and
/// `b[blo..bhi]`.
fn lex_cmp_exec(a: &Vec<char>, alo: usize, ahi: usize, b: &Vec<char>, blo: usize, bhi: usize) -> (r:
    i8)
    requires
        alo <= ahi <= a@.len(),
        blo <= bhi <= b@.len(),
    ensures
        r as int == lex_cmp(a@.subrange(alo as int, ahi as int), b@.subrange(blo as int, bhi as int)),
    decreases (ahi - alo) + (bhi - blo),
{
    let ghost sa = a@.subrange(alo as int, ahi as int);
    let ghost sb = b@.subrange(blo as int, bhi as int);
    if alo == ahi && blo == bhi {
        return 0;
    }
    let oa: i64 = if alo < ahi {
        char_order_exec(a[alo])
    } else {
        0
    };
    let ob: i64 = if blo < bhi {
        char_order_exec(b[blo])
    } else {
        0
    };
    proof {
        assert(oa as int == head_order(sa));
        assert(ob as int == head_order(sb));
    }
    if oa < ob {
        -1
    } else if oa > ob {
        1
    } else {
        proof {
            if alo < ahi {
                assert(seq_tail(sa) =~= a@.subrange(alo + 1, ahi as int));
            } else {
                assert(seq_tail(sa) =~= a@.subrange(alo as int, ahi as int));
            }
            if blo < bhi {
                assert(seq_tail(sb) =~= b@.subrange(blo + 1, bhi as int));
            } else {
                assert(seq_tail(sb) =~= b@.subrange(blo as int, bhi as int));
            }
        }
        let alo2 = if alo < ahi {
            alo + 1
        } else {
            alo
        };
        let blo2 = if blo < bhi {
            blo + 1
        } else {
            blo
        };
        lex_cmp_exec(a, alo2, ahi, b, blo2, bhi)
    }
}

/// Numeric comparison of the digit parts `a[alo..ahi]` and
/// `b[blo..bhi]`: leading zeros are stripped, then a longer string is
/// larger and equal lengths compare by the first differing digit.
fn num_cmp_exec(a: &Vec<char>, alo: usize, ahi: usize, b: &Vec<char>, blo: usize, bhi: usize) -> (r:
    i8)
    requires
        alo <= ahi <= a@.len(),
        blo <= bhi <= b@.len(),
        all_digits(a@.subrange(alo as int, ahi as int)),
        all_digits(b@.subrange(blo as int, bhi as int)),
    ensures
        r as int == num_cmp(a@.subrange(alo as int, ahi as int), b@.subrange(blo as int, bhi as int)),
{
    let ghost sa = a@.subrange(alo as int, ahi as int);
    let ghost sb = b@.subrange(blo as int, bhi as int);
    // Strip leading zeros.
    let mut i: usize = alo;
    while i < ahi && a[i] as u32 == 48
        invariant
            alo <= i <= ahi <= a@.len(),
            num_val(sa) == num_val(a@.subrange(i as int, ahi as int)),
            sa == a@.subrange(alo as int, ahi as int),
        decreases ahi - i,
    {
        proof {
            lemma_num_val_strip_zero(a@.subrange(i as int, ahi as int));
            assert(a@.subrange(i as int, ahi as int).skip(1) =~= a@.subrange(i + 1, ahi as int));
        }
        i = i + 1;
    }
    let mut j: usize = blo;
    while j < bhi && b[j] as u32 == 48
        invariant
            blo <= j <= bhi <= b@.len(),
            num_val(sb) == num_val(b@.subrange(j as int, bhi as int)),
            sb == b@.subrange(blo as int, bhi as int),
        decreases bhi - j,
    {
        proof {
            lemma_num_val_strip_zero(b@.subrange(j as int, bhi as int));
            assert(b@.subrange(j as int, bhi as int).skip(1) =~= b@.subrange(j + 1, bhi as int));
        }
        j = j + 1;
    }
    let ghost sa2 = a@.subrange(i as int, ahi as int);
    let ghost sb2 = b@.subrange(j as int, bhi as int);
    proof {
        assert(all_digits(sa2)) by {
            assert(forall|k: int| 0 <= k < sa2.len() ==> sa2[k] == sa[k + (i - alo)]);
        }
        assert(all_digits(sb2)) by {
            assert(forall|k: int| 0 <= k < sb2.len() ==> sb2[k] == sb[k + (j - blo)]);
        }
    }
    let la = ahi - i;
    let lb = bhi - j;
    if la < lb {
        proof {
            lemma_num_val_bound(sa2);
            lemma_num_val_lower(sb2);
            lemma_pow10_mono(sa2.len() as nat, (sb2.len() - 1) as nat);
        }
        return -1;
    }
    if la > lb {
        proof {
            lemma_num_val_bound(sb2);
            lemma_num_val_lower(sa2);
            lemma_pow10_mono(sb2.len() as nat, (sa2.len() - 1) as nat);
        }
        return 1;
    }
    // Same stripped length: first differing digit decides.
    let mut k: usize = 0;
    while k < la
        invariant
            alo <= i <= ahi <= a@.len(),
            blo <= j <= bhi <= b@.len(),
            la == ahi - i == bhi - j,
            k <= la,
            sa2 == a@.subrange(i as int, ahi as int),
            sb2 == b@.subrange(j as int, bhi as int),
            all_digits(sa2),
            all_digits(sb2),
            num_val(sa) == num_val(sa2),
            num_val(sb) == num_val(sb2),
            sa == a@.subrange(alo as int, ahi as int),
            sb == b@.subrange(blo as int, bhi as int),
            forall|m: int| 0 <= m < k ==> digit_val(sa2[m]) == digit_val(sb2[m]),
        decreases la - k,
    {
        let ca = a[i + k] as u32;
        let cb = b[j + k] as u32;
        if ca < cb {
            proof {
                lemma_num_val_first_diff(sa2, sb2, k as int);
            }
            return -1;
        }
        if ca > cb {
            proof {
                lemma_num_val_first_diff(sb2, sa2, k as int);
            }
            return 1;
        }
        proof {
            assert(sa2[k as int] == a@[i + k]);
            assert(sb2[k as int] == b@[j + k]);
        }
        k = k + 1;
    }
    proof {
        lemma_num_val_digit_eq(sa2, sb2);
    }
    0
}

/// Comparison of upstream-version or revision strings
/// `a[alo..ahi]` versus `b[blo..bhi]`, as `cmp_ver`.
fn cmp_ver_exec(a: &Vec<char>, alo: usize, ahi: usize, b: &Vec<char>, blo: usize, bhi: usize) -> (r:
    i8)
    requires
        alo <= ahi <= a@.len(),
        blo <= bhi <= b@.len(),
    ensures
        r as int == cmp_ver(a@.subrange(alo as int, ahi as int), b@.subrange(blo as int, bhi as int)),
    decreases (ahi - alo) + (bhi - blo),
{
    let ghost sa = a@.subrange(alo as int, ahi as int);
    let ghost sb = b@.subrange(blo as int, bhi as int);
    if alo == ahi && blo == bhi {
        return 0;
    }
    // Leading non-digit parts.
    let na = nd_len_from_range(a, alo, ahi);
    let nb = nd_len_from_range(b, blo, bhi);
    proof {
        assert(sa.take(nd_len(sa)) =~= a@.subrange(alo as int, (alo + na) as int));
        assert(sb.take(nd_len(sb)) =~= b@.subrange(blo as int, (blo + nb) as int));
    }
    let c1 = lex_cmp_exec(a, alo, alo + na, b, blo, blo + nb);
    if c1 != 0 {
        return c1;
    }
    // Leading digit parts of the remainders.
    let ghost sa1 = sa.skip(nd_len(sa));
    let ghost sb1 = sb.skip(nd_len(sb));
    proof {
        assert(sa1 =~= a@.subrange((alo + na) as int, ahi as int));
        assert(sb1 =~= b@.subrange((blo + nb) as int, bhi as int));
    }
    let da = d_len_from_range(a, alo + na, ahi);
    let db = d_len_from_range(b, blo + nb, bhi);
    proof {
        assert(sa1.take(d_len(sa1)) =~= a@.subrange((alo + na) as int, (alo + na + da) as int));
        assert(sb1.take(d_len(sb1)) =~= b@.subrange((blo + nb) as int, (blo + nb + db) as int));
        lemma_d_len(sa1);
        lemma_d_len(sb1);
        assert(all_digits(a@.subrange((alo + na) as int, (alo + na + da) as int)));
        assert(all_digits(b@.subrange((blo + nb) as int, (blo + nb + db) as int)));
    }
    let c2 = num_cmp_exec(a, alo + na, alo + na + da, b, blo + nb, blo + nb + db);
    if c2 != 0 {
        return c2;
    }
    proof {
        assert(sa1.skip(d_len(sa1)) =~= a@.subrange((alo + na + da) as int, ahi as int));
        assert(sb1.skip(d_len(sb1)) =~= b@.subrange((blo + nb + db) as int, bhi as int));
        if alo == ahi {
            assert(na == 0 && da == 0);
            assert(!(blo == bhi));
            if nb > 0 {
                assert(sa.take(nd_len(sa)) =~= Seq::<char>::empty());
                lemma_lex_cmp_one_empty(sb.take(nd_len(sb)));
                assert(false);
            }
            assert(db > 0) by {
                lemma_nd_len(sb);
                lemma_d_len(sb1);
                assert(sb1[0] == sb[0]);
            }
        } else if blo == bhi {
            assert(nb == 0 && db == 0);
            if na > 0 {
                assert(sb.take(nd_len(sb)) =~= Seq::<char>::empty());
                lemma_lex_cmp_one_empty(sa.take(nd_len(sa)));
                assert(false);
            }
            assert(da > 0) by {
                lemma_nd_len(sa);
                lemma_d_len(sa1);
                assert(sa1[0] == sa[0]);
            }
        } else {
            if na == 0 {
                assert(da > 0) by {
                    lemma_nd_len(sa);
                    lemma_d_len(sa1);
                    assert(sa1[0] == sa[0]);
                }
            }
            if nb == 0 {
                assert(db > 0) by {
                    lemma_nd_len(sb);
                    lemma_d_len(sb1);
                    assert(sb1[0] == sb[0]);
                }
            }
        }
    }
    cmp_ver_exec(a, alo + na + da, ahi, b, blo + nb + db, bhi)
}

/// As `nd_len_from`, for the slice ending at `hi`.
fn nd_len_from_range(v: &Vec<char>, lo: usize, hi: usize) -> (r: usize)
    requires
        lo <= hi <= v@.len(),
    ensures
        lo + r <= hi,
        r == nd_len(v@.subrange(lo as int, hi as int)),
{
    let mut i: usize = lo;
    while i < hi && !is_digit_exec(v[i])
        invariant
            lo <= i <= hi <= v@.len(),
            forall|j: int| lo <= j < i ==> !is_digit(v@[j]),
        decreases hi - i,
    {
        i = i + 1;
    }
    proof {
        let s = v@.subrange(lo as int, hi as int);
        assert(forall|j: int| 0 <= j < i - lo ==> s[j] == v@[j + lo]);
        if i < hi {
            assert(s[i - lo] == v@[i as int]);
        }
        lemma_run_len(s, i - lo, false);
    }
    i - lo
}

/// As `d_len_from`, for the slice ending at `hi`.
fn d_len_from_range(v: &Vec<char>, lo: usize, hi: usize) -> (r: usize)
    requires
        lo <= hi <= v@.len(),
    ensures
        lo + r <= hi,
        r == d_len(v@.subrange(lo as int, hi as int)),
{
    let mut i: usize = lo;
    while i < hi && is_digit_exec(v[i])
        invariant
            lo <= i <= hi <= v@.len(),
            forall|j: int| lo <= j < i ==> is_digit(v@[j]),
        decreases hi - i,
    {
        i = i + 1;
    }
    proof {
        let s = v@.subrange(lo as int, hi as int);
        assert(forall|j: int| 0 <= j < i - lo ==> s[j] == v@[j + lo]);
        if i < hi {
            assert(s[i - lo] == v@[i as int]);
        }
        lemma_run_len(s, i - lo, true);
    }
    i - lo
}

/// First `:` of the whole vector, or none.
fn find_colon_exec(v: &Vec<char>) -> (r: Option<usize>)
    ensures
        match r {
            Some(i) => find_colon(v@) == i as int,
            None => find_colon(v@) == -1,
        },
{
    let n = v.len();
    let mut i: usize = 0;
    while i < n
        invariant
            i <= n == v@.len(),
            forall|j: int| 0 <= j < i ==> v@[j] != ':',
        decreases n - i,
    {
        if v[i] == ':' {
            proof {
                lemma_find_colon(v@);
            }
            return Some(i);
        }
        i = i + 1;
    }
    proof {
        lemma_find_colon(v@);
    }
    None
}

/// Last `-` in `v[lo..]`, or none.
fn rfind_dash_exec(v: &Vec<char>, lo: usize) -> (r: Option<usize>)
    requires
        lo <= v@.len(),
    ensures
        match r {
            Some(i) => lo <= i && rfind_dash(v@.skip(lo as int)) == i - lo,
            None => rfind_dash(v@.skip(lo as int)) == -1,
        },
{
    let n = v.len();
    let mut i: usize = n;
    while i > lo
        invariant
            lo <= i <= n == v@.len(),
            forall|j: int| i <= j < n ==> v@[j] != '-',
        decreases i,
    {
        i = i - 1;
        if v[i] == '-' {
            proof {
                let s = v@.skip(lo as int);
                lemma_rfind_dash(s);
                assert(s[i - lo] == v@[i as int]);
                assert(forall|j: int| i - lo < j < s.len() ==> s[j] == v@[j + lo]);
                if rfind_dash(s) == -1 {
                    assert(false);
                }
                if rfind_dash(s) > i - lo {
                    assert(s[rfind_dash(s)] == v@[rfind_dash(s) + lo]);
                    assert(false);
                }
                if rfind_dash(s) < i - lo {
                    assert(false);
                }
            }
            return Some(i);
        }
    }
    proof {
        let s = v@.skip(lo as int);
        lemma_rfind_dash(s);
        if rfind_dash(s) >= 0 {
            assert(s[rfind_dash(s)] == v@[rfind_dash(s) + lo]);
            assert(false);
        }
    }
    None
}

/// Compare two Debian version strings; returns -1, 0 or 1 as the first
/// is lower than, equal to, or higher than the second.
#[verifier::rlimit(100)]
pub fn compare_versions(a: &str, b: &str) -> (r: i8)
    ensures
        r as int == version_cmp(a@, b@),
{
    let va = chars_of(a);
    let vb = chars_of(b);
    // Epoch comparison.
    let (ea_lo, ea_hi, ra) = split_epoch(&va);
    let (eb_lo, eb_hi, rb) = split_epoch(&vb);
    let c1 = num_cmp_exec(&va, ea_lo, ea_hi, &vb, eb_lo, eb_hi);
    if c1 != 0 {
        return c1;
    }
    // Upstream and revision.
    let (ua_lo, ua_hi, va_lo, va_hi) = split_revision(&va, ra);
    let (ub_lo, ub_hi, vb_lo, vb_hi) = split_revision(&vb, rb);
    let c2 = cmp_ver_exec(&va, ua_lo, ua_hi, &vb, ub_lo, ub_hi);
    if c2 != 0 {
        return c2;
    }
    cmp_ver_exec(&va, va_lo, va_hi, &vb, vb_lo, vb_hi)
}

/// Locate the epoch digits `v[r.0..r.1]` and the start `r.2` of the
/// remainder after the epoch.
fn split_epoch(v: &Vec<char>) -> (r: (usize, usize, usize))
    ensures
        r.0 <= r.1 <= v@.len(),
        r.2 <= v@.len(),
        v@.subrange(r.0 as int, r.1 as int) == epoch_digits(v@),
        all_digits(v@.subrange(r.0 as int, r.1 as int)),
        v@.subrange(r.2 as int, v@.len() as int) == after_epoch(v@),
{
    let n = v.len();
    match find_colon_exec(v) {
        Some(c) => {
            proof {
                lemma_find_colon(v@);
            }
            let d = d_len_from_range(v, 0, c);
            proof {
                let e = v@.take(find_colon(v@));
                assert(e =~= v@.subrange(0, c as int));
                assert(e.take(d_len(e)) =~= v@.subrange(0, d as int));
                lemma_d_len(e);
                assert(all_digits(v@.subrange(0, d as int)));
                assert(v@.subrange(c + 1, v@.len() as int) =~= v@.skip(find_colon(v@) + 1));
            }
            proof {
                assert(c < n);
            }
            (0, d, c + 1)
        },
        None => {
            proof {
                assert(v@.subrange(0, 0) =~= Seq::<char>::empty());
                assert(v@.subrange(0, v@.len() as int) =~= v@);
            }
            (0, 0, 0)
        },
    }
}

/// Split the remainder `v[lo..]` at its last dash: upstream part
/// `v[r.0..r.1]` and revision part `v[r.2..r.3]`.
fn split_revision(v: &Vec<char>, lo: usize) -> (r: (usize, usize, usize, usize))
    requires
        lo <= v@.len(),
        v@.subrange(lo as int, v@.len() as int) == after_epoch(v@),
    ensures
        r.0 <= r.1 <= v@.len(),
        r.2 <= r.3 <= v@.len(),
        v@.subrange(r.0 as int, r.1 as int) == upstream_part(v@),
        v@.subrange(r.2 as int, r.3 as int) == revision_part(v@),
{
    let n = v.len();
    let ghost rest = after_epoch(v@);
    match rfind_dash_exec(v, lo) {
        Some(d) => {
            proof {
                lemma_rfind_dash(rest);
                assert(rest.take(rfind_dash(rest)) =~= v@.subrange(lo as int, d as int));
                assert(rest.skip(rfind_dash(rest) + 1) =~= v@.subrange(d + 1, n as int));
            }
            (lo, d, d + 1, n)
        },
        None => {
            proof {
                assert(rest =~= v@.subrange(lo as int, n as int));
                assert(v@.subrange(n as int, n as int) =~= Seq::<char>::empty());
            }
            (lo, n, n, n)
        },
    }
}

} // verus!
