use vstd::prelude::*;

verus! {

/// Humidity above this whole number of percent switches the plug on.
pub const THRESHOLD: u64 = 45;

/// Value of the switch capability that turns the plug on.
pub const SWITCH_ON: i32 = 1;

/// Value of the switch capability that turns the plug off.
pub const SWITCH_OFF: i32 = 0;

/// A humidity reading held exactly as the decimal number the sensor reported:
/// an optional minus sign, the digits before the point and those after it.
pub struct Humidity {
    pub negative: bool,
    pub whole: Vec<u8>,
    pub fraction: Vec<u8>,
}

pub open spec fn all_digits(s: Seq<u8>) -> bool {
    forall|i: int| 0 <= i < s.len() ==> #[trigger] s[i] < 10
}

/// The natural number that a sequence of decimal digits spells, most significant first.
pub open spec fn digits_value(s: Seq<u8>) -> nat
    decreases s.len(),
{
    if s.len() == 0 {
        0
    } else {
        digits_value(s.drop_last()) * 10 + s.last() as nat
    }
}

pub open spec fn pow10(n: nat) -> nat
    decreases n,
{
    if n == 0 {
        1
    } else {
        10 * pow10((n - 1) as nat)
    }
}

impl Humidity {
    pub open spec fn wf(&self) -> bool {
        &&& self.whole@.len() >= 1
        &&& all_digits(self.whole@)
        &&& all_digits(self.fraction@)
    }

    /// The reading times `10^scale`, with its sign: the reading is `scaled() / 10^scale()`.
    pub open spec fn scaled(&self) -> int {
        let m = digits_value(self.whole@ + self.fraction@) as int;
        if self.negative {
            -m
        } else {
            m
        }
    }

    pub open spec fn scale(&self) -> nat {
        self.fraction@.len()
    }

    /// The reading is strictly greater than `t` percent.
    pub open spec fn exceeds(&self, t: int) -> bool {
        self.scaled() > t * pow10(self.scale())
    }
}

/// The switch value the plug is set to for a reading.
pub open spec fn command_value(h: Humidity) -> i32 {
    if h.exceeds(THRESHOLD as int) {
        SWITCH_ON
    } else {
        SWITCH_OFF
    }
}

proof fn lemma_pow10_positive(n: nat)
    ensures
        pow10(n) >= 1,
    decreases n,
{
    if n > 0 {
        lemma_pow10_positive((n - 1) as nat);
    }
}

proof fn lemma_digits_value_bound(s: Seq<u8>)
    requires
        all_digits(s),
    ensures
        digits_value(s) < pow10(s.len()),
    decreases s.len(),
{
    if s.len() > 0 {
        let p = s.drop_last();
        assert(all_digits(p)) by {
            assert forall|i: int| 0 <= i < p.len() implies #[trigger] p[i] < 10 by {
                assert(p[i] == s[i]);
            }
        }
        lemma_digits_value_bound(p);
        assert(s.last() < 10) by {
            assert(s[s.len() - 1] < 10);
        }
        let a = digits_value(p);
        let b = pow10(p.len());
        assert(a * 10 + 9 < 10 * b) by (nonlinear_arith)
            requires
                a < b,
        ;
    }
}

proof fn lemma_digits_value_concat(a: Seq<u8>, b: Seq<u8>)
    ensures
        digits_value(a + b) == digits_value(a) * pow10(b.len()) + digits_value(b),
    decreases b.len(),
{
    if b.len() == 0 {
        assert(a + b =~= a);
        assert(pow10(0) == 1);
        assert(digits_value(a) * 1 == digits_value(a));
    } else {
        let bp = b.drop_last();
        assert((a + b).drop_last() =~= a + bp);
        assert((a + b).last() == b.last());
        lemma_digits_value_concat(a, bp);
        let x = digits_value(a);
        let p = pow10(bp.len());
        let y = digits_value(bp);
        let d = b.last() as nat;
        assert(pow10(b.len()) == 10 * p);
        assert(digits_value(b) == y * 10 + d);
        assert(digits_value(a + b) == digits_value(a + bp) * 10 + d);
        assert((x * p + y) * 10 + d == x * (10 * p) + (y * 10 + d)) by (nonlinear_arith);
        assert(digits_value(a + b) == x * pow10(b.len()) + digits_value(b));
    }
}

proof fn lemma_zero_digits(s: Seq<u8>)
    ensures
        digits_value(s) == 0 <==> forall|i: int| 0 <= i < s.len() ==> #[trigger] s[i] == 0,
    decreases s.len(),
{
    if s.len() > 0 {
        let p = s.drop_last();
        lemma_zero_digits(p);
        if digits_value(s) == 0 {
            assert forall|i: int| 0 <= i < s.len() implies #[trigger] s[i] == 0 by {
                if i < s.len() - 1 {
                    assert(s[i] == p[i]);
                }
            }
        }
        if forall|i: int| 0 <= i < s.len() ==> #[trigger] s[i] == 0 {
            assert(s[s.len() - 1] == 0);
            assert forall|i: int| 0 <= i < p.len() implies #[trigger] p[i] == 0 by {
                assert(s[i] == p[i]);
            }
        }
    }
}

/// Whether the reading exceeds the threshold, from its whole part and whether
/// its fraction is zero.
proof fn lemma_exceeds_by_parts(h: Humidity, t: int)
    requires
        h.wf(),
        t >= 0,
    ensures
        h.exceeds(t) <==> !h.negative && (digits_value(h.whole@) > t || (digits_value(
            h.whole@,
        ) == t && digits_value(h.fraction@) > 0)),
{
    lemma_digits_value_concat(h.whole@, h.fraction@);
    lemma_digits_value_bound(h.fraction@);
    lemma_pow10_positive(h.scale());
    let w = digits_value(h.whole@) as int;
    let f = digits_value(h.fraction@) as int;
    let p = pow10(h.scale()) as int;
    if h.negative {
        assert(t * p >= 0) by (nonlinear_arith)
            requires
                t >= 0,
                p >= 1,
        ;
        assert(w * p + f >= 0) by (nonlinear_arith)
            requires
                w >= 0,
                p >= 1,
                f >= 0,
        ;
    } else if w > t {
        assert(w * p + f > t * p) by (nonlinear_arith)
            requires
                w > t,
                p >= 1,
                f >= 0,
        ;
    } else if w == t {
    } else {
        assert(w * p + f < t * p) by (nonlinear_arith)
            requires
                w < t,
                p >= 1,
                0 <= f < p,
        ;
    }
}

/// The switch value for a reading: on above the threshold, off at or below it.
pub fn command_for(h: &Humidity) -> (r: i32)
    requires
        h.wf(),
    ensures
        r == command_value(*h),
        r == SWITCH_ON <==> h.exceeds(THRESHOLD as int),
        r == SWITCH_OFF <==> !h.exceeds(THRESHOLD as int),
{
    proof {
        lemma_exceeds_by_parts(*h, THRESHOLD as int);
    }
    if h.negative {
        return SWITCH_OFF;
    }
    // The whole part, capped once it is certainly above the threshold.
    let cap: u64 = THRESHOLD + 1;
    let mut w: u64 = 0;
    let mut i: usize = 0;
    while i < h.whole.len()
        invariant
            h.wf(),
            i <= h.whole@.len(),
            cap == THRESHOLD + 1,
            w as int == if digits_value(h.whole@.subrange(0, i as int)) < cap {
                digits_value(h.whole@.subrange(0, i as int)) as int
            } else {
                cap as int
            },
        decreases h.whole@.len() - i,
    {
        let d = h.whole[i];
        proof {
            let pre = h.whole@.subrange(0, i as int);
            let next = h.whole@.subrange(0, i + 1);
            assert(next.drop_last() =~= pre);
            assert(next.last() == d);
            assert(d < 10) by {
                assert(h.whole@[i as int] < 10);
            }
            let v = digits_value(pre) as int;
            assert(v >= cap ==> v * 10 + d >= cap) by (nonlinear_arith)
                requires
                    cap >= 0,
                    d >= 0,
            ;
        }
        let nw = w * 10 + d as u64;
        w = if nw < cap {
            nw
        } else {
            cap
        };
        i = i + 1;
    }
    assert(h.whole@.subrange(0, h.whole@.len() as int) =~= h.whole@);
    if w > THRESHOLD {
        return SWITCH_ON;
    }
    if w < THRESHOLD {
        return SWITCH_OFF;
    }
    assert(digits_value(h.whole@) == THRESHOLD);
    let mut j: usize = 0;
    while j < h.fraction.len()
        invariant
            h.wf(),
            j <= h.fraction@.len(),
            digits_value(h.whole@) == THRESHOLD,
            !h.negative,
            forall|k: int| 0 <= k < j ==> #[trigger] h.fraction@[k] == 0,
        decreases h.fraction@.len() - j,
    {
        if h.fraction[j] != 0 {
            proof {
                lemma_zero_digits(h.fraction@);
                lemma_exceeds_by_parts(*h, THRESHOLD as int);
            }
            return SWITCH_ON;
        }
        j = j + 1;
    }
    proof {
        lemma_zero_digits(h.fraction@);
    }
    SWITCH_OFF
}


pub open spec fn is_digit_char(c: char) -> bool {
    '0' <= c && c <= '9'
}

pub open spec fn digit_char(d: u8) -> char {
    ((d + 48) as u8) as char
}

pub open spec fn all_digit_chars(s: Seq<char>, lo: int, hi: int) -> bool {
    forall|j: int| lo <= j < hi ==> is_digit_char(#[trigger] s[j])
}

/// Where the digits start: after a leading minus sign, if there is one.
pub open spec fn digits_start(s: Seq<char>) -> int {
    if s.len() > 0 && s[0] == '-' {
        1
    } else {
        0
    }
}

/// The text is a decimal number: an optional minus sign, at least one digit,
/// then optionally a point followed by at least one digit.
pub open spec fn is_decimal_text(s: Seq<char>) -> bool {
    let st = digits_start(s);
    exists|k: int|
        #![trigger all_digit_chars(s, st, k)]
        st < k <= s.len() && all_digit_chars(s, st, k) && (k == s.len() || (s[k] == '.' && k + 1
            < s.len() && all_digit_chars(s, k + 1, s.len() as int)))
}

/// The decimal text of a reading.
pub open spec fn render(h: Humidity) -> Seq<char> {
    let sign = if h.negative {
        seq!['-']
    } else {
        Seq::<char>::empty()
    };
    let frac = if h.fraction@.len() == 0 {
        Seq::<char>::empty()
    } else {
        seq!['.'] + h.fraction@.map_values(|d: u8| digit_char(d))
    };
    sign + h.whole@.map_values(|d: u8| digit_char(d)) + frac
}

fn read_digits(text: &str, from: usize, n: usize) -> (r: (Vec<u8>, usize))
    requires
        n == text@.len(),
        from <= n,
    ensures
        from <= r.1 <= n,
        all_digit_chars(text@, from as int, r.1 as int),
        r.1 < n ==> !is_digit_char(text@[r.1 as int]),
        r.0@.len() == r.1 - from,
        all_digits(r.0@),
        r.0@.map_values(|d: u8| digit_char(d)) =~= text@.subrange(from as int, r.1 as int),
{
    let mut v: Vec<u8> = Vec::new();
    let mut i: usize = from;
    while i < n
        invariant
            n == text@.len(),
            from <= i <= n,
            all_digit_chars(text@, from as int, i as int),
            v@.len() == i - from,
            all_digits(v@),
            v@.map_values(|d: u8| digit_char(d)) =~= text@.subrange(from as int, i as int),
        ensures
            i < n ==> !is_digit_char(text@[i as int]),
        decreases n - i,
    {
        let c = text.get_char(i);
        if c < '0' || c > '9' {
            break;
        }
        let d: u8 = (c as u32 - '0' as u32) as u8;
        assert(digit_char(d) == c);
        v.push(d);
        i = i + 1;
        assert(v@.map_values(|d: u8| digit_char(d)) =~= text@.subrange(from as int, i as int));
    }
    (v, i)
}

/// Reads a reading from its decimal text; `None` where the text is no decimal number.
pub fn parse_humidity(text: &str) -> (r: Option<Humidity>)
    ensures
        r is Some <==> is_decimal_text(text@),
        r matches Some(h) ==> h.wf() && render(h) == text@,
{
    let n = text.unicode_len();
    let st: usize = if n > 0 && text.get_char(0) == '-' {
        1
    } else {
        0
    };
    let (whole, k) = read_digits(text, st, n);
    if k == st {
        assert(!is_decimal_text(text@)) by {
            if st < n {
                assert(!is_digit_char(text@[st as int]));
            }
        }
        return None;
    }
    let mut fraction: Vec<u8> = Vec::new();
    if k < n {
        if text.get_char(k) != '.' || k + 1 == n {
            assert(!is_decimal_text(text@)) by {
                assert forall|m: int| st < m <= text@.len() && all_digit_chars(text@, st as int, m)
                    implies !(m == text@.len() || (text@[m] == '.' && m + 1 < text@.len()
                    && all_digit_chars(text@, m + 1, text@.len() as int))) by {
                    if m > k {
                        assert(is_digit_char(text@[k as int]));
                    }
                }
            }
            return None;
        }
        let (f, e) = read_digits(text, k + 1, n);
        if e < n || e == k + 1 {
            assert(!is_decimal_text(text@)) by {
                assert forall|m: int| st < m <= text@.len() && all_digit_chars(text@, st as int, m)
                    implies !(m == text@.len() || (text@[m] == '.' && m + 1 < text@.len()
                    && all_digit_chars(text@, m + 1, text@.len() as int))) by {
                    if m > k {
                        assert(is_digit_char(text@[k as int]));
                    } else if m == k && e < n && all_digit_chars(text@, m + 1, text@.len() as int) {
                        assert(is_digit_char(text@[e as int]));
                    }
                }
            }
            return None;
        }
        fraction = f;
    }
    let h = Humidity { negative: st == 1, whole, fraction };
    assert(is_decimal_text(text@)) by {
        assert(all_digit_chars(text@, st as int, k as int));
    }
    assert(render(h) =~= text@);
    Some(h)
}

} // verus!
