//! Fixed-width timestamp labels of backup versions, and the string order on them.

use vstd::prelude::*;

verus! {

/// A local date and time, as the calendar fields that a label is made of.
pub struct Timestamp {
    pub year: i32,
    pub month: u32,
    pub day: u32,
    pub hour: u32,
    pub minute: u32,
    pub second: u32,
}

/// Every field fits the width it is written in (four digits for the year, two for the others).
pub open spec fn fits_label(t: Timestamp) -> bool {
    0 <= t.year <= 9999 && t.month <= 99 && t.day <= 99 && t.hour <= 99 && t.minute <= 99 && t.second <= 99
}

/// `a` comes strictly before `b`, comparing year, month, day, hour, minute and second in turn.
pub open spec fn earlier(a: Timestamp, b: Timestamp) -> bool {
    a.year < b.year || (a.year == b.year && (a.month < b.month || (a.month == b.month && (a.day < b.day
        || (a.day == b.day && (a.hour < b.hour || (a.hour == b.hour && (a.minute < b.minute
        || (a.minute == b.minute && a.second < b.second)))))))))
}

/// The character of a decimal digit.
pub open spec fn digit_char(d: nat) -> char {
    if d == 0 { '0' } else if d == 1 { '1' } else if d == 2 { '2' } else if d == 3 { '3' }
    else if d == 4 { '4' } else if d == 5 { '5' } else if d == 6 { '6' } else if d == 7 { '7' }
    else if d == 8 { '8' } else { '9' }
}

/// The last `w` decimal digits of `n`, zero-padded on the left.
pub open spec fn pad_spec(n: nat, w: nat) -> Seq<char>
    decreases w,
{
    if w == 0 {
        Seq::empty()
    } else {
        pad_spec(n / 10, (w - 1) as nat).push(digit_char(n % 10))
    }
}

/// The label `YYYYMMDD_HHMMSS` of a timestamp.
pub open spec fn label_spec(t: Timestamp) -> Seq<char> {
    pad_spec(t.year as nat, 4) + pad_spec(t.month as nat, 2) + pad_spec(t.day as nat, 2) + seq!['_']
        + pad_spec(t.hour as nat, 2) + pad_spec(t.minute as nat, 2) + pad_spec(t.second as nat, 2)
}

/// Lexicographic order on character sequences, by code point (the order of `str`).
pub open spec fn seq_lt(a: Seq<char>, b: Seq<char>) -> bool
    decreases a.len(),
{
    if a.len() == 0 {
        b.len() > 0
    } else if b.len() == 0 {
        false
    } else if a[0] != b[0] {
        (a[0] as u32) < (b[0] as u32)
    } else {
        seq_lt(a.drop_first(), b.drop_first())
    }
}

fn digit_str(d: u32) -> (r: &'static str)
    requires
        d < 10,
    ensures
        r@ == seq![digit_char(d as nat)],
{
    proof {
        reveal_strlit("0"); reveal_strlit("1"); reveal_strlit("2"); reveal_strlit("3"); reveal_strlit("4");
        reveal_strlit("5"); reveal_strlit("6"); reveal_strlit("7"); reveal_strlit("8"); reveal_strlit("9");
    }
    let r = if d == 0 { "0" } else if d == 1 { "1" } else if d == 2 { "2" } else if d == 3 { "3" }
        else if d == 4 { "4" } else if d == 5 { "5" } else if d == 6 { "6" } else if d == 7 { "7" }
        else if d == 8 { "8" } else { "9" };
    assert(r@ =~= seq![digit_char(d as nat)]);
    r
}

fn pad(n: u32, w: u32) -> (r: String)
    ensures
        r@ == pad_spec(n as nat, w as nat),
    decreases w,
{
    if w == 0 {
        String::new()
    } else {
        let mut s = pad(n / 10, w - 1);
        s.append(digit_str(n % 10));
        s
    }
}

/// The label of `t`, or `None` when a field does not fit its width.
pub fn version_label(t: &Timestamp) -> (r: Option<String>)
    ensures
        r is Some <==> fits_label(*t),
        r is Some ==> r->Some_0@ == label_spec(*t),
{
    if t.year < 0 || t.year > 9999 || t.month > 99 || t.day > 99 || t.hour > 99 || t.minute > 99 || t.second > 99 {
        return None;
    }
    let mut s = pad(t.year as u32, 4);
    s.append(pad(t.month, 2).as_str());
    s.append(pad(t.day, 2).as_str());
    proof {
        reveal_strlit("_");
    }
    s.append("_");
    s.append(pad(t.hour, 2).as_str());
    s.append(pad(t.minute, 2).as_str());
    s.append(pad(t.second, 2).as_str());
    Some(s)
}

/// Whether `a` comes strictly before `b` in string order.
pub fn str_lt(a: &str, b: &str) -> (r: bool)
    ensures
        r == seq_lt(a@, b@),
{
    let n = a.unicode_len();
    let m = b.unicode_len();
    let mut i: usize = 0;
    assert(a@.skip(0) =~= a@ && b@.skip(0) =~= b@);
    while i < n && i < m
        invariant
            i <= n,
            i <= m,
            n == a@.len(),
            m == b@.len(),
            seq_lt(a@, b@) == seq_lt(a@.skip(i as int), b@.skip(i as int)),
        decreases n - i,
    {
        let x = a.get_char(i);
        let y = b.get_char(i);
        assert(a@.skip(i as int)[0] == x && b@.skip(i as int)[0] == y);
        if x != y {
            return (x as u32) < (y as u32);
        }
        assert(a@.skip(i as int).drop_first() =~= a@.skip(i as int + 1));
        assert(b@.skip(i as int).drop_first() =~= b@.skip(i as int + 1));
        i = i + 1;
    }
    i < m
}

/// Strict string order is asymmetric.
pub proof fn lemma_seq_lt_asymmetric(a: Seq<char>, b: Seq<char>)
    ensures
        seq_lt(a, b) ==> !seq_lt(b, a),
    decreases a.len(),
{
    if a.len() > 0 && b.len() > 0 && a[0] == b[0] {
        lemma_seq_lt_asymmetric(a.drop_first(), b.drop_first());
    }
}

/// Strict string order is irreflexive.
pub proof fn lemma_seq_lt_irreflexive(a: Seq<char>)
    ensures
        !seq_lt(a, a),
    decreases a.len(),
{
    if a.len() > 0 {
        lemma_seq_lt_irreflexive(a.drop_first());
    }
}

/// Comparing two concatenations whose first parts have equal lengths.
proof fn lemma_seq_lt_concat(a1: Seq<char>, b1: Seq<char>, a2: Seq<char>, b2: Seq<char>)
    requires
        a1.len() == a2.len(),
    ensures
        seq_lt(a1 + b1, a2 + b2) == (seq_lt(a1, a2) || (a1 == a2 && seq_lt(b1, b2))),
        (a1 + b1 == a2 + b2) == (a1 == a2 && b1 == b2),
    decreases a1.len(),
{
    if a1.len() == 0 {
        assert(a1 + b1 =~= b1);
        assert(a2 + b2 =~= b2);
        assert(a1 =~= a2);
    } else {
        assert((a1 + b1).drop_first() =~= a1.drop_first() + b1);
        assert((a2 + b2).drop_first() =~= a2.drop_first() + b2);
        lemma_seq_lt_concat(a1.drop_first(), b1, a2.drop_first(), b2);
        if a1 + b1 == a2 + b2 {
            assert(a1 =~= (a1 + b1).take(a1.len() as int));
            assert(a2 =~= (a2 + b2).take(a2.len() as int));
            assert(b1 =~= (a1 + b1).skip(a1.len() as int));
            assert(b2 =~= (a2 + b2).skip(a2.len() as int));
        }
        if a1[0] == a2[0] && a1.drop_first() == a2.drop_first() {
            assert forall|i: int| 0 <= i < a1.len() implies a1[i] == a2[i] by {
                if i > 0 {
                    assert(a1.drop_first()[i - 1] == a2.drop_first()[i - 1]);
                }
            }
            assert(a1 =~= a2);
        }
        if a1 == a2 {
            assert(a1.drop_first() == a2.drop_first());
        }
    }
}

proof fn lemma_pad_len(n: nat, w: nat)
    ensures
        pad_spec(n, w).len() == w,
    decreases w,
{
    if w > 0 {
        lemma_pad_len(n / 10, (w - 1) as nat);
    }
}

proof fn lemma_digit_code(d: nat)
    requires
        d < 10,
    ensures
        digit_char(d) as u32 == 48 + d,
{
    if d == 0 { assert('0' as u32 == 48); } else if d == 1 { assert('1' as u32 == 49); }
    else if d == 2 { assert('2' as u32 == 50); } else if d == 3 { assert('3' as u32 == 51); }
    else if d == 4 { assert('4' as u32 == 52); } else if d == 5 { assert('5' as u32 == 53); }
    else if d == 6 { assert('6' as u32 == 54); } else if d == 7 { assert('7' as u32 == 55); }
    else if d == 8 { assert('8' as u32 == 56); } else { assert('9' as u32 == 57); }
}

/// Powers of ten.
pub open spec fn pow10(w: nat) -> nat
    decreases w,
{
    if w == 0 { 1 } else { 10 * pow10((w - 1) as nat) }
}

/// On numbers below `10^w`, the `w`-digit forms order and compare as the numbers do.
proof fn lemma_pad_order(n1: nat, n2: nat, w: nat)
    requires
        n1 < pow10(w),
        n2 < pow10(w),
    ensures
        seq_lt(pad_spec(n1, w), pad_spec(n2, w)) == (n1 < n2),
        (pad_spec(n1, w) == pad_spec(n2, w)) == (n1 == n2),
        pad_spec(n1, w).len() == w,
    decreases w,
{
    if w == 0 {
        lemma_seq_lt_irreflexive(pad_spec(n1, w));
    } else {
        let p = pow10((w - 1) as nat);
        assert(n1 / 10 < p && n2 / 10 < p) by (nonlinear_arith)
            requires n1 < 10 * p, n2 < 10 * p;
        lemma_pad_order(n1 / 10, n2 / 10, (w - 1) as nat);
        lemma_pad_len(n1 / 10, (w - 1) as nat);
        lemma_pad_len(n2 / 10, (w - 1) as nat);
        lemma_pad_len(n1, w);
        lemma_digit_code(n1 % 10);
        lemma_digit_code(n2 % 10);
        let d1 = seq![digit_char(n1 % 10)];
        let d2 = seq![digit_char(n2 % 10)];
        assert(pad_spec(n1, w) =~= pad_spec(n1 / 10, (w - 1) as nat) + d1);
        assert(pad_spec(n2, w) =~= pad_spec(n2 / 10, (w - 1) as nat) + d2);
        lemma_seq_lt_concat(pad_spec(n1 / 10, (w - 1) as nat), d1, pad_spec(n2 / 10, (w - 1) as nat), d2);
        assert(seq_lt(d1, d2) == (n1 % 10 < n2 % 10)) by {
            assert(d1.len() == 1 && d2.len() == 1);
            assert(d1[0] == digit_char(n1 % 10) && d2[0] == digit_char(n2 % 10));
            assert(d1.drop_first().len() == 0);
            assert(d2.drop_first().len() == 0);
            assert(!seq_lt(d1.drop_first(), d2.drop_first()));
            if d1[0] == d2[0] {
                assert(n1 % 10 == n2 % 10);
            }
        }
        assert((d1 == d2) == (n1 % 10 == n2 % 10)) by {
            if d1 == d2 {
                assert(d1[0] == d2[0]);
            }
        }
        assert((n1 < n2) == (n1 / 10 < n2 / 10 || (n1 / 10 == n2 / 10 && n1 % 10 < n2 % 10))) by (nonlinear_arith);
        assert((n1 == n2) == (n1 / 10 == n2 / 10 && n1 % 10 == n2 % 10)) by (nonlinear_arith);
    }
}

/// Labels sort as the timestamps they stand for: for timestamps that fit the
/// label widths, one label comes before another in string order exactly when
/// its timestamp is earlier. Sorting labels in descending string order
/// therefore lists versions newest first.
pub proof fn lemma_label_order_is_time_order(a: Timestamp, b: Timestamp)
    requires
        fits_label(a),
        fits_label(b),
    ensures
        seq_lt(label_spec(a), label_spec(b)) == earlier(a, b),
        (label_spec(a) == label_spec(b)) == (a == b),
{
    assert(pow10(0) == 1);
    assert(pow10(1) == 10);
    assert(pow10(2) == 100);
    assert(pow10(3) == 1000);
    assert(pow10(4) == 10000);
    lemma_pad_len(a.year as nat, 4);
    lemma_pad_len(b.year as nat, 4);
    lemma_pad_len(a.month as nat, 2);
    lemma_pad_len(b.month as nat, 2);
    lemma_pad_len(a.day as nat, 2);
    lemma_pad_len(b.day as nat, 2);
    lemma_pad_len(a.hour as nat, 2);
    lemma_pad_len(b.hour as nat, 2);
    lemma_pad_len(a.minute as nat, 2);
    lemma_pad_len(b.minute as nat, 2);
    lemma_pad_order(a.year as nat, b.year as nat, 4);
    lemma_pad_order(a.month as nat, b.month as nat, 2);
    lemma_pad_order(a.day as nat, b.day as nat, 2);
    lemma_pad_order(a.hour as nat, b.hour as nat, 2);
    lemma_pad_order(a.minute as nat, b.minute as nat, 2);
    lemma_pad_order(a.second as nat, b.second as nat, 2);
    let ya = pad_spec(a.year as nat, 4);
    let yb = pad_spec(b.year as nat, 4);
    let moa = pad_spec(a.month as nat, 2);
    let mob = pad_spec(b.month as nat, 2);
    let da = pad_spec(a.day as nat, 2);
    let db = pad_spec(b.day as nat, 2);
    let ha = pad_spec(a.hour as nat, 2);
    let hb = pad_spec(b.hour as nat, 2);
    let mia = pad_spec(a.minute as nat, 2);
    let mib = pad_spec(b.minute as nat, 2);
    let sa = pad_spec(a.second as nat, 2);
    let sb = pad_spec(b.second as nat, 2);
    let u = seq!['_'];
    lemma_seq_lt_irreflexive(u);
    lemma_seq_lt_concat(ya, moa, yb, mob);
    lemma_seq_lt_concat(ya + moa, da, yb + mob, db);
    lemma_seq_lt_concat(ya + moa + da, u, yb + mob + db, u);
    lemma_seq_lt_concat(ya + moa + da + u, ha, yb + mob + db + u, hb);
    lemma_seq_lt_concat(ya + moa + da + u + ha, mia, yb + mob + db + u + hb, mib);
    lemma_seq_lt_concat(ya + moa + da + u + ha + mia, sa, yb + mob + db + u + hb + mib, sb);
}

} // verus!
