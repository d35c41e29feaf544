//! Dotted-quad IPv4 addresses: four decimal octets (0 to 255, written
//! without leading zeros) separated by dots, e.g. `10.0.0.1`.

use vstd::prelude::*;

verus! {

pub open spec fn is_digit(c: char) -> bool {
    '0' <= c && c <= '9'
}

pub open spec fn digit_char(d: nat) -> char {
    (d + 48) as char
}

/// The decimal writing of `n`, without leading zeros.
pub open spec fn decimal(n: nat) -> Seq<char>
    decreases n,
{
    if n < 10 {
        seq![digit_char(n)]
    } else {
        decimal(n / 10).push(digit_char(n % 10))
    }
}

/// The value of a run of decimal digits.
pub open spec fn digits_value(s: Seq<char>) -> nat
    decreases s.len(),
{
    if s.len() == 0 {
        0
    } else {
        digits_value(s.drop_last()) * 10 + (s.last() as nat - 48) as nat
    }
}

pub open spec fn all_digits(s: Seq<char>) -> bool {
    forall|i: int| 0 <= i < s.len() ==> #[trigger] is_digit(s[i])
}

/// A non-empty digit run without a leading zero (a lone `0` is allowed).
pub open spec fn canonical_digits(s: Seq<char>) -> bool {
    &&& s.len() >= 1
    &&& all_digits(s)
    &&& (s.len() == 1 || s[0] != '0')
}

/// The text of the address with octets `a.b.c.d`.
pub open spec fn dotted_quad(a: u8, b: u8, c: u8, d: u8) -> Seq<char> {
    decimal(a as nat) + seq!['.'] + decimal(b as nat) + seq!['.'] + decimal(c as nat) + seq!['.']
        + decimal(d as nat)
}

/// The 32-bit value of the address `a.b.c.d` (first octet most significant).
pub open spec fn quad_value(a: u8, b: u8, c: u8, d: u8) -> u32 {
    (a as int * 16777216 + b as int * 65536 + c as int * 256 + d as int) as u32
}

/// `t` is the text of some IPv4 address.
pub open spec fn is_dotted_quad(t: Seq<char>) -> bool {
    exists|a: u8, b: u8, c: u8, d: u8| t == #[trigger] dotted_quad(a, b, c, d)
}

/// Decimal law: the decimal writing of `n` is a non-empty run of digits
/// without a leading zero (unless `n` is 0) whose value is `n`.
pub proof fn decimal_shape(n: nat)
    ensures
        canonical_digits(decimal(n)),
        digits_value(decimal(n)) == n,
        decimal(n)[0] == '0' ==> n == 0,
        n < 10 ==> decimal(n).len() == 1,
        n < 100 ==> decimal(n).len() <= 2,
        n < 1000 ==> decimal(n).len() <= 3,
    decreases n,
{
    let s = decimal(n);
    if n < 10 {
        assert(s.drop_last() =~= Seq::<char>::empty());
        assert(digit_char(n) as nat == n + 48);
        assert(s.last() == digit_char(n));
        assert(digits_value(s.drop_last()) == 0);
        assert(digits_value(s) == digits_value(s.drop_last()) * 10 + (s.last() as nat - 48) as nat);
    } else {
        let m = n / 10;
        let d = n % 10;
        assert(n == m * 10 + d && d < 10 && m >= 1 && m < n) by (nonlinear_arith)
            requires
                n >= 10,
                m == n / 10,
                d == n % 10,
        ;
        assert(m < 10 ==> n < 100) by (nonlinear_arith)
            requires
                n == m * 10 + d,
                d < 10,
        ;
        assert(m < 100 ==> n < 1000) by (nonlinear_arith)
            requires
                n == m * 10 + d,
                d < 10,
        ;
        assert(n < 100 ==> m < 10);
        assert(n < 1000 ==> m < 100);
        decimal_shape(m);
        let p = decimal(m);
        assert(s == p.push(digit_char(d)));
        assert(s.drop_last() =~= p);
        assert(digit_char(d) as nat == d + 48);
        assert(s.last() == digit_char(d));
        assert(digits_value(s) == digits_value(s.drop_last()) * 10 + (s.last() as nat - 48) as nat);
        assert(digits_value(s) == m * 10 + d);
        assert forall|i: int| 0 <= i < s.len() implies #[trigger] is_digit(s[i]) by {
            if i < p.len() {
                assert(s[i] == p[i]);
            }
        }
        assert(s[0] == p[0]);
    }
}

/// Every digit run without a leading zero is the decimal writing of its
/// value, so reading and writing octets are inverse.
pub proof fn canonical_is_decimal(s: Seq<char>)
    requires
        canonical_digits(s),
    ensures
        decimal(digits_value(s)) == s,
    decreases s.len(),
{
    let v = digits_value(s);
    if s.len() == 1 {
        assert(s.drop_last() =~= Seq::<char>::empty());
        assert(is_digit(s[0]));
        assert(s.last() == s[0]);
        assert(digits_value(s.drop_last()) == 0);
        assert(v == (s[0] as nat - 48) as nat);
        assert(v < 10);
        assert(digit_char(v) == s[0]);
        assert(decimal(v) =~= s);
    } else {
        let p = s.drop_last();
        assert(is_digit(s[s.len() - 1]));
        assert(canonical_digits(p)) by {
            assert forall|i: int| 0 <= i < p.len() implies #[trigger] is_digit(p[i]) by {
                assert(p[i] == s[i]);
            }
            assert(p[0] == s[0]);
        }
        canonical_is_decimal(p);
        decimal_shape(digits_value(p));
        let pv = digits_value(p);
        // a canonical run of two or more digits has a non-zero value
        assert(pv >= 1) by {
            if pv == 0 {
                assert(decimal(pv) == seq![digit_char(0)]);
                assert(p.len() == 1);
                assert(p[0] == s[0]);
            }
        }
        let d = (s.last() as nat - 48) as nat;
        assert(v == pv * 10 + d);
        assert(d < 10);
        assert(v / 10 == pv && v % 10 == d) by (nonlinear_arith)
            requires
                v == pv * 10 + d,
                d < 10,
        ;
        assert(v >= 10);
        assert(decimal(v) == decimal(pv).push(digit_char(d)));
        assert(digit_char(d) == s.last());
        assert(decimal(v) =~= s);
    }
}

/// The text starting at `start` begins with `piece`, which is followed by
/// the end of the text or by a non-digit.
pub open spec fn run_at(t: Seq<char>, start: int, piece: Seq<char>) -> bool {
    &&& 0 <= start
    &&& start + piece.len() <= t.len()
    &&& t.subrange(start, start + piece.len()) == piece
    &&& (start + piece.len() == t.len() || !is_digit(t[start + piece.len()]))
}

/// Two digit runs that both start at `start` and both end at a non-digit
/// (or the end) are the same run.
proof fn runs_agree(t: Seq<char>, start: int, x: Seq<char>, y: Seq<char>)
    requires
        run_at(t, start, x),
        run_at(t, start, y),
        all_digits(x),
        all_digits(y),
    ensures
        x == y,
{
    if x.len() < y.len() {
        assert(t[start + x.len()] == y[x.len() as int]);
        assert(is_digit(y[x.len() as int]));
    } else if y.len() < x.len() {
        assert(t[start + y.len()] == x[y.len() as int]);
        assert(is_digit(x[y.len() as int]));
    }
    assert(x =~= t.subrange(start, start + x.len()));
}

proof fn decimal_injective(x: nat, y: nat)
    requires
        decimal(x) == decimal(y),
    ensures
        x == y,
{
    decimal_shape(x);
    decimal_shape(y);
}

/// Reads the octet starting at `start`: the run of digits there, which must
/// be canonical, at most three digits long and at most 255. Returns the
/// octet and where the run ends.
fn read_octet(t: &Vec<char>, start: usize) -> (r: Option<(u8, usize)>)
    requires
        start <= t@.len(),
    ensures
        match r {
            Some((v, end)) => end == start + decimal(v as nat).len() && run_at(
                t@,
                start as int,
                decimal(v as nat),
            ),
            None => forall|v: u8| !run_at(t@, start as int, #[trigger] decimal(v as nat)),
        },
{
    let n = t.len();
    let mut end = start;
    let mut value: u32 = 0;
    while end < n && end - start < 4 && '0' <= t[end] && t[end] <= '9'
        invariant
            start <= end <= n,
            n == t@.len(),
            end - start <= 4,
            all_digits(t@.subrange(start as int, end as int)),
            value == digits_value(t@.subrange(start as int, end as int)),
            value < 10000,
            end - start == 0 ==> value == 0,
            end - start <= 1 ==> value < 10,
            end - start <= 2 ==> value < 100,
            end - start <= 3 ==> value < 1000,
        decreases n - end,
    {
        let d = (t[end] as u32) - 48;
        let ghost old_run = t@.subrange(start as int, end as int);
        let ghost new_run = t@.subrange(start as int, end + 1);
        assert(new_run.drop_last() =~= old_run);
        assert(new_run.last() == t@[end as int]);
        assert(all_digits(new_run)) by {
            assert forall|i: int| 0 <= i < new_run.len() implies #[trigger] is_digit(new_run[i]) by {
                if i < old_run.len() {
                    assert(new_run[i] == old_run[i]);
                }
            }
        }
        value = value * 10 + d;
        end = end + 1;
    }
    let ghost run = t@.subrange(start as int, end as int);
    // `end` stops a maximal digit run unless four digits were seen
    let len = end - start;
    if len == 0 || len > 3 {
        proof {
            assert forall|v: u8| !run_at(t@, start as int, #[trigger] decimal(v as nat)) by {
                decimal_shape(v as nat);
                let dv = decimal(v as nat);
                if run_at(t@, start as int, dv) {
                    if len == 0 {
                        assert(t@[start as int] == dv[0]);
                        assert(is_digit(dv[0]));
                    } else {
                        assert(dv.len() <= 3);
                        assert(t@[start + dv.len()] == run[dv.len() as int]);
                        assert(is_digit(run[dv.len() as int]));
                    }
                }
            }
        }
        return None;
    }
    assert(end == n || !is_digit(t@[end as int]));
    assert(run_at(t@, start as int, run)) by {
        assert(run.len() == end - start);
    }
    if value > 255 || (len > 1 && t[start] == '0') {
        proof {
            assert forall|v: u8| !run_at(t@, start as int, #[trigger] decimal(v as nat)) by {
                decimal_shape(v as nat);
                let dv = decimal(v as nat);
                if run_at(t@, start as int, dv) {
                    runs_agree(t@, start as int, dv, run);
                    assert(run[0] == t@[start as int]);
                }
            }
        }
        return None;
    }
    assert(canonical_digits(run)) by {
        assert(run[0] == t@[start as int]);
    }
    proof { canonical_is_decimal(run); }
    let v = value as u8;
    assert(decimal(v as nat) == run);
    Some((v, end))
}

/// Where the pieces of the text of `a.b.c.d` stand.
proof fn quad_layout(t: Seq<char>, a: u8, b: u8, c: u8, d: u8)
    requires
        t == dotted_quad(a, b, c, d),
    ensures
        ({
            let la = decimal(a as nat).len() as int;
            let lb = decimal(b as nat).len() as int;
            let lc = decimal(c as nat).len() as int;
            let ld = decimal(d as nat).len() as int;
            &&& run_at(t, 0, decimal(a as nat))
            &&& t[la] == '.'
            &&& run_at(t, la + 1, decimal(b as nat))
            &&& t[la + 1 + lb] == '.'
            &&& run_at(t, la + lb + 2, decimal(c as nat))
            &&& t[la + lb + lc + 2] == '.'
            &&& run_at(t, la + lb + lc + 3, decimal(d as nat))
            &&& la + lb + lc + ld + 3 == t.len()
        }),
{
    let da = decimal(a as nat);
    let db = decimal(b as nat);
    let dc = decimal(c as nat);
    let dd = decimal(d as nat);
    let la = da.len() as int;
    let lb = db.len() as int;
    let lc = dc.len() as int;
    let ld = dd.len() as int;
    let dot = seq!['.'];
    let s1 = da + dot;
    let s2 = s1 + db;
    let s3 = s2 + dot;
    let s4 = s3 + dc;
    let s5 = s4 + dot;
    assert(t == s5 + dd);
    assert(t.len() == la + lb + lc + ld + 3);
    assert(t.subrange(0, la) =~= da);
    assert(t[la] == '.') by {
        assert(s1[la] == '.');
    }
    assert(t.subrange(la + 1, la + 1 + lb) =~= db);
    assert(t[la + 1 + lb] == '.') by {
        assert(s3[la + 1 + lb] == '.');
    }
    assert(t.subrange(la + lb + 2, la + lb + 2 + lc) =~= dc);
    assert(t[la + lb + lc + 2] == '.') by {
        assert(s5[la + lb + lc + 2] == '.');
    }
    assert(t.subrange(la + lb + lc + 3, la + lb + lc + 3 + ld) =~= dd);
}

proof fn octet_forced(s: Seq<char>, start: int, x: u8, y: u8)
    requires
        run_at(s, start, decimal(x as nat)),
        run_at(s, start, decimal(y as nat)),
    ensures
        x == y,
{
    decimal_shape(x as nat);
    decimal_shape(y as nat);
    runs_agree(s, start, decimal(x as nat), decimal(y as nat));
    decimal_injective(x as nat, y as nat);
}

/// End of the octet `x` written from `start`.
pub open spec fn octet_end(start: int, x: u8) -> int {
    start + decimal(x as nat).len()
}

/// The first `k` octets read from `s` (`a`, then `b`, then `c`) are
/// the first `k` octets of any address whose text `s` is.
proof fn reads_forced(s: Seq<char>, k: int, a: u8, b: u8, c: u8, a2: u8, b2: u8, c2: u8, d2: u8)
    requires
        s == dotted_quad(a2, b2, c2, d2),
        1 <= k <= 3,
        run_at(s, 0, decimal(a as nat)),
        k >= 2 ==> run_at(s, octet_end(0, a) + 1, decimal(b as nat)),
        k >= 3 ==> run_at(s, octet_end(octet_end(0, a) + 1, b) + 1, decimal(c as nat)),
    ensures
        a == a2,
        k >= 2 ==> b == b2,
        k >= 3 ==> c == c2,
{
    quad_layout(s, a2, b2, c2, d2);
    octet_forced(s, 0, a, a2);
    if k >= 2 {
        octet_forced(s, octet_end(0, a) + 1, b, b2);
    }
    if k >= 3 {
        octet_forced(s, octet_end(octet_end(0, a) + 1, b) + 1, c, c2);
    }
}

proof fn first_octet_missing(s: Seq<char>)
    requires
        forall|v: u8| !run_at(s, 0, #[trigger] decimal(v as nat)),
    ensures
        !is_dotted_quad(s),
{
    assert forall|a: u8, b: u8, c: u8, d: u8| s != #[trigger] dotted_quad(a, b, c, d) by {
        if s == dotted_quad(a, b, c, d) {
            quad_layout(s, a, b, c, d);
        }
    }
}

proof fn dot_missing(s: Seq<char>, k: int, a: u8, b: u8, c: u8, p: int)
    requires
        1 <= k <= 3,
        run_at(s, 0, decimal(a as nat)),
        k >= 2 ==> run_at(s, octet_end(0, a) + 1, decimal(b as nat)),
        k >= 3 ==> run_at(s, octet_end(octet_end(0, a) + 1, b) + 1, decimal(c as nat)),
        k == 1 ==> p == octet_end(0, a),
        k == 2 ==> p == octet_end(octet_end(0, a) + 1, b),
        k == 3 ==> p == octet_end(octet_end(octet_end(0, a) + 1, b) + 1, c),
        p >= s.len() || s[p] != '.',
    ensures
        !is_dotted_quad(s),
{
    assert forall|a2: u8, b2: u8, c2: u8, d2: u8| s != #[trigger] dotted_quad(a2, b2, c2, d2) by {
        if s == dotted_quad(a2, b2, c2, d2) {
            reads_forced(s, k, a, b, c, a2, b2, c2, d2);
            quad_layout(s, a2, b2, c2, d2);
        }
    }
}

proof fn later_octet_missing(s: Seq<char>, k: int, a: u8, b: u8, c: u8, p: int)
    requires
        1 <= k <= 3,
        run_at(s, 0, decimal(a as nat)),
        k >= 2 ==> run_at(s, octet_end(0, a) + 1, decimal(b as nat)),
        k >= 3 ==> run_at(s, octet_end(octet_end(0, a) + 1, b) + 1, decimal(c as nat)),
        k == 1 ==> p == octet_end(0, a),
        k == 2 ==> p == octet_end(octet_end(0, a) + 1, b),
        k == 3 ==> p == octet_end(octet_end(octet_end(0, a) + 1, b) + 1, c),
        forall|v: u8| !run_at(s, p + 1, #[trigger] decimal(v as nat)),
    ensures
        !is_dotted_quad(s),
{
    assert forall|a2: u8, b2: u8, c2: u8, d2: u8| s != #[trigger] dotted_quad(a2, b2, c2, d2) by {
        if s == dotted_quad(a2, b2, c2, d2) {
            reads_forced(s, k, a, b, c, a2, b2, c2, d2);
            quad_layout(s, a2, b2, c2, d2);
        }
    }
}

proof fn text_continues(s: Seq<char>, a: u8, b: u8, c: u8, d: u8)
    requires
        run_at(s, 0, decimal(a as nat)),
        run_at(s, octet_end(0, a) + 1, decimal(b as nat)),
        run_at(s, octet_end(octet_end(0, a) + 1, b) + 1, decimal(c as nat)),
        run_at(s, octet_end(octet_end(octet_end(0, a) + 1, b) + 1, c) + 1, decimal(d as nat)),
        octet_end(octet_end(octet_end(octet_end(0, a) + 1, b) + 1, c) + 1, d) != s.len(),
    ensures
        !is_dotted_quad(s),
{
    let p3 = octet_end(octet_end(octet_end(0, a) + 1, b) + 1, c);
    assert forall|a2: u8, b2: u8, c2: u8, d2: u8| s != #[trigger] dotted_quad(a2, b2, c2, d2) by {
        if s == dotted_quad(a2, b2, c2, d2) {
            reads_forced(s, 3, a, b, c, a2, b2, c2, d2);
            quad_layout(s, a2, b2, c2, d2);
            octet_forced(s, p3 + 1, d, d2);
        }
    }
}

proof fn text_is_quad(s: Seq<char>, a: u8, b: u8, c: u8, d: u8)
    requires
        run_at(s, 0, decimal(a as nat)),
        s[octet_end(0, a)] == '.',
        run_at(s, octet_end(0, a) + 1, decimal(b as nat)),
        s[octet_end(octet_end(0, a) + 1, b)] == '.',
        run_at(s, octet_end(octet_end(0, a) + 1, b) + 1, decimal(c as nat)),
        s[octet_end(octet_end(octet_end(0, a) + 1, b) + 1, c)] == '.',
        run_at(s, octet_end(octet_end(octet_end(0, a) + 1, b) + 1, c) + 1, decimal(d as nat)),
        octet_end(octet_end(octet_end(octet_end(0, a) + 1, b) + 1, c) + 1, d) == s.len(),
    ensures
        s == dotted_quad(a, b, c, d),
{
    let da = decimal(a as nat);
    let db = decimal(b as nat);
    let dc = decimal(c as nat);
    let dd = decimal(d as nat);
    let p1 = octet_end(0, a);
    let p2 = octet_end(p1 + 1, b);
    let p3 = octet_end(p2 + 1, c);
    let dot = seq!['.'];
    assert(s.subrange(0, p1) == da);
    assert(s.subrange(0, p1 + 1) =~= da + dot);
    assert(s.subrange(p1 + 1, p2) == db);
    assert(s.subrange(0, p2) =~= da + dot + db);
    assert(s.subrange(0, p2 + 1) =~= da + dot + db + dot);
    assert(s.subrange(p2 + 1, p3) == dc);
    assert(s.subrange(0, p3) =~= da + dot + db + dot + dc);
    assert(s.subrange(0, p3 + 1) =~= da + dot + db + dot + dc + dot);
    assert(s.subrange(p3 + 1, s.len() as int) == dd);
    assert(s =~= da + dot + db + dot + dc + dot + dd);
}

/// Address value law: the value of `a.b.c.d` has `a` as its most
/// significant byte, then `b`, `c` and `d`.
pub proof fn quad_value_law(a: u8, b: u8, c: u8, d: u8)
    ensures
        quad_value(a, b, c, d) as int == a as int * 16777216 + b as int * 65536 + c as int * 256
            + d as int,
        quad_value(a, b, c, d) / 16777216 == a,
        (quad_value(a, b, c, d) / 65536) % 256 == b,
        (quad_value(a, b, c, d) / 256) % 256 == c,
        quad_value(a, b, c, d) % 256 == d,
{
    let v = a as int * 16777216 + b as int * 65536 + c as int * 256 + d as int;
    assert(0 <= v < 0x1_0000_0000) by (nonlinear_arith)
        requires
            v == a as int * 16777216 + b as int * 65536 + c as int * 256 + d as int,
            0 <= a < 256,
            0 <= b < 256,
            0 <= c < 256,
            0 <= d < 256,
    ;
    assert(v / 16777216 == a && (v / 65536) % 256 == b && (v / 256) % 256 == c && v % 256 == d)
        by (nonlinear_arith)
        requires
            v == a as int * 16777216 + b as int * 65536 + c as int * 256 + d as int,
            0 <= a < 256,
            0 <= b < 256,
            0 <= c < 256,
            0 <= d < 256,
    ;
}

/// The text of an address determines its octets, so an address read from
/// a text has exactly one value.
pub proof fn dotted_quad_determines_octets(a: u8, b: u8, c: u8, d: u8, a2: u8, b2: u8, c2: u8, d2: u8)
    requires
        dotted_quad(a, b, c, d) == dotted_quad(a2, b2, c2, d2),
    ensures
        a == a2 && b == b2 && c == c2 && d == d2,
        quad_value(a, b, c, d) == quad_value(a2, b2, c2, d2),
{
    let s = dotted_quad(a, b, c, d);
    quad_layout(s, a, b, c, d);
    reads_forced(s, 3, a, b, c, a2, b2, c2, d2);
    quad_layout(s, a2, b2, c2, d2);
    octet_forced(s, octet_end(octet_end(octet_end(0, a) + 1, b) + 1, c) + 1, d, d2);
}

/// Reads a dotted-quad IPv4 address. The result is the address's value
/// when `text` is the text of an address, and nothing otherwise.
pub fn parse_dotted_quad(text: &str) -> (r: Option<u32>)
    ensures
        match r {
            Some(v) => exists|a: u8, b: u8, c: u8, d: u8|
                text@ == #[trigger] dotted_quad(a, b, c, d) && v == quad_value(a, b, c, d) && v as int
                    == a as int * 16777216 + b as int * 65536 + c as int * 256 + d as int,
            None => !is_dotted_quad(text@),
        },
{
    let t = crate::text::chars_of(text);
    let n = t.len();
    let (a, p1) = match read_octet(&t, 0) {
        Some(x) => x,
        None => {
            proof { first_octet_missing(t@); }
            return None;
        },
    };
    if p1 >= n || t[p1] != '.' {
        proof { dot_missing(t@, 1, a, 0, 0, p1 as int); }
        return None;
    }
    let (b, p2) = match read_octet(&t, p1 + 1) {
        Some(x) => x,
        None => {
            proof { later_octet_missing(t@, 1, a, 0, 0, p1 as int); }
            return None;
        },
    };
    if p2 >= n || t[p2] != '.' {
        proof { dot_missing(t@, 2, a, b, 0, p2 as int); }
        return None;
    }
    let (c, p3) = match read_octet(&t, p2 + 1) {
        Some(x) => x,
        None => {
            proof { later_octet_missing(t@, 2, a, b, 0, p2 as int); }
            return None;
        },
    };
    if p3 >= n || t[p3] != '.' {
        proof { dot_missing(t@, 3, a, b, c, p3 as int); }
        return None;
    }
    let (d, p4) = match read_octet(&t, p3 + 1) {
        Some(x) => x,
        None => {
            proof { later_octet_missing(t@, 3, a, b, c, p3 as int); }
            return None;
        },
    };
    if p4 != n {
        proof { text_continues(t@, a, b, c, d); }
        return None;
    }
    proof { text_is_quad(t@, a, b, c, d); }
    let v = (a as u32) * 16777216 + (b as u32) * 65536 + (c as u32) * 256 + (d as u32);
    Some(v)
}

} // verus!
