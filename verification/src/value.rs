//! The typed cell value and its equality rules.

use crate::numeric::f64_eq_bits;
use crate::numeric::f64_is_inf;
use crate::numeric::f64_lt;
use crate::numeric::f64_is_nan;
use crate::numeric::f64_exp;
use crate::numeric::f64_mant;
use crate::numeric::f64_sign;
use crate::numeric::f64_finite_bits;
use crate::numeric::f64_nan_bits;
use crate::numeric::f64_unpack;
use crate::numeric::i64_f64_parts;
use crate::numeric::i64_mag;
use crate::numeric::nearest_f64_exp;
use crate::numeric::nearest_f64_mant;
use crate::numeric::int_f64_eq;
use crate::numeric::within_tol;
use crate::numeric::within_tolerance_parts;
use crate::text::ascii_case_insensitive_eq;
use crate::text::i64_dec_str;
use crate::text::pad2;
use crate::text::pad3;
use crate::text::pad4;
use crate::text::push_i64_dec;
use crate::text::push_pad2;
use crate::text::push_pad3;
use crate::text::push_pad4;
use crate::text::str_eq_ignore_ascii_case;
use crate::text::str_eq_ignore_ws;
use crate::text::ws_insensitive_eq;
use vstd::prelude::*;
use vstd::string::StringExecFns;

verus! {

/// A calendar date, held as plain year, month and day fields.  The display
/// form is the usual `YYYY-MM-DD`; readers are expected to supply years up
/// to 9999 and calendar-range month and day values.
#[derive(Debug, Clone, Copy, PartialEq, Eq, Structural)]
pub struct Date {
    pub year: u16,
    pub month: u8,
    pub day: u8,
}

/// A calendar date with a time of day, displayed as
/// `YYYY-MM-DD HH:MM:SS` plus a 3, 6 or 9 digit sub-second fraction when
/// the nanosecond field is not zero.
#[derive(Debug, Clone, Copy, PartialEq, Eq, Structural)]
pub struct DateTime {
    pub date: Date,
    pub hour: u8,
    pub minute: u8,
    pub second: u8,
    pub nano: u32,
}

/// A double-precision number, carried as its raw IEEE-754 bit pattern
/// together with the decimal rendering the reader produced for it.  All
/// comparisons read the bits; only display reads the rendering.
#[derive(Debug)]
pub struct FloatVal {
    pub bits: u64,
    pub repr: String,
}

/// The mathematical view of a double cell: the bits and the rendering as a
/// character sequence.
pub struct FloatV {
    pub bits: u64,
    pub repr: Seq<char>,
}

impl View for FloatVal {
    type V = FloatV;

    open spec fn view(&self) -> FloatV {
        FloatV { bits: self.bits, repr: self.repr@ }
    }
}

impl Clone for FloatVal {
    /// Cloning keeps the bits and the rendering.
    fn clone(&self) -> (r: FloatVal)
        ensures
            r@ == self@,
    {
        FloatVal { bits: self.bits, repr: self.repr.clone() }
    }
}

/// A cell value: a closed variant over nothing, booleans, 64-bit integers,
/// doubles, text, dates and date-times.
#[derive(Debug)]
pub enum CellValue {
    Null,
    Bool(bool),
    Int(i64),
    Float(FloatVal),
    Text(String),
    Date(Date),
    DateTime(DateTime),
}

/// The mathematical view of a cell value, over which all contracts speak.
pub enum CellV {
    Null,
    Bool(bool),
    Int(i64),
    Float(FloatV),
    Text(Seq<char>),
    Date(Date),
    DateTime(DateTime),
}

impl View for CellValue {
    type V = CellV;

    open spec fn view(&self) -> CellV {
        match self {
            CellValue::Null => CellV::Null,
            CellValue::Bool(b) => CellV::Bool(*b),
            CellValue::Int(i) => CellV::Int(*i),
            CellValue::Float(f) => CellV::Float(f@),
            CellValue::Text(s) => CellV::Text(s@),
            CellValue::Date(d) => CellV::Date(*d),
            CellValue::DateTime(t) => CellV::DateTime(*t),
        }
    }
}

impl Clone for CellValue {
    /// Cloning keeps the cell's value.
    fn clone(&self) -> (r: CellValue)
        ensures
            r@ == self@,
    {
        match self {
            CellValue::Null => CellValue::Null,
            CellValue::Bool(b) => CellValue::Bool(*b),
            CellValue::Int(i) => CellValue::Int(*i),
            CellValue::Float(f) => CellValue::Float(f.clone()),
            CellValue::Text(s) => CellValue::Text(s.clone()),
            CellValue::Date(d) => CellValue::Date(*d),
            CellValue::DateTime(t) => CellValue::DateTime(*t),
        }
    }
}

/// The views of a sequence of cells.
pub open spec fn views_of(s: Seq<CellValue>) -> Seq<CellV> {
    s.map_values(|c: CellValue| c@)
}

/// The display form of a date.
pub open spec fn date_str(d: Date) -> Seq<char> {
    pad4(d.year as nat) + seq!['-'] + pad2(d.month as nat) + seq!['-'] + pad2(d.day as nat)
}

/// The display form of the sub-second fraction: empty when zero, otherwise a
/// dot and the shortest of 3, 6 or 9 digits that loses nothing.
pub open spec fn frac_str(n: nat) -> Seq<char> {
    if n == 0 {
        Seq::empty()
    } else if n % 1000000 == 0 {
        seq!['.'] + pad3(n / 1000000)
    } else if n % 1000 == 0 {
        seq!['.'] + pad3(n / 1000000) + pad3(n / 1000 % 1000)
    } else {
        seq!['.'] + pad3(n / 1000000) + pad3(n / 1000 % 1000) + pad3(n % 1000)
    }
}

/// The display form of a date-time.
pub open spec fn datetime_str(t: DateTime) -> Seq<char> {
    date_str(t.date) + seq![' '] + pad2(t.hour as nat) + seq![':'] + pad2(t.minute as nat)
        + seq![':'] + pad2(t.second as nat) + frac_str(t.nano as nat)
}

/// The display form of a cell value, the form that composite keys join.
pub open spec fn display_of(v: CellV) -> Seq<char> {
    match v {
        CellV::Null => seq!['N', 'U', 'L', 'L'],
        CellV::Bool(b) => if b {
            seq!['t', 'r', 'u', 'e']
        } else {
            seq!['f', 'a', 'l', 's', 'e']
        },
        CellV::Int(i) => i64_dec_str(i as int),
        CellV::Float(f) => f.repr,
        CellV::Text(s) => s,
        CellV::Date(d) => date_str(d),
        CellV::DateTime(t) => datetime_str(t),
    }
}

/// Exact cell equality: equal variants compare their payloads, doubles
/// compare as numbers with NaN equal to NaN, and an integer equals a double
/// that denotes the integer's converted double value, the nearest double
/// with ties rounded to even.  Any other cross-variant pair is unequal.
pub open spec fn cell_eq(a: CellV, b: CellV) -> bool {
    match (a, b) {
        (CellV::Null, CellV::Null) => true,
        (CellV::Bool(x), CellV::Bool(y)) => x == y,
        (CellV::Int(x), CellV::Int(y)) => x == y,
        (CellV::Float(x), CellV::Float(y)) => f64_eq_bits(x.bits, y.bits),
        (CellV::Text(x), CellV::Text(y)) => x == y,
        (CellV::Date(x), CellV::Date(y)) => x == y,
        (CellV::DateTime(x), CellV::DateTime(y)) => x == y,
        (CellV::Int(x), CellV::Float(y)) => int_f64_eq(x, y.bits),
        (CellV::Float(x), CellV::Int(y)) => int_f64_eq(y, x.bits),
        _ => false,
    }
}

impl FloatVal {
    /// A double cell from its raw bits and its decimal rendering.
    pub fn new(bits: u64, repr: String) -> (v: FloatVal)
        ensures
            v.bits == bits,
            v.repr == repr,
    {
        FloatVal { bits, repr }
    }
}

impl PartialEq for CellValue {
    /// Decides exact cell equality, `cell_eq`.
    fn eq(&self, other: &CellValue) -> (r: bool) {
        match (self, other) {
            (CellValue::Null, CellValue::Null) => true,
            (CellValue::Bool(x), CellValue::Bool(y)) => *x == *y,
            (CellValue::Int(x), CellValue::Int(y)) => *x == *y,
            (CellValue::Float(x), CellValue::Float(y)) => crate::numeric::f64_eq(x.bits, y.bits),
            (CellValue::Text(x), CellValue::Text(y)) => x.eq(y),
            (CellValue::Date(x), CellValue::Date(y)) => *x == *y,
            (CellValue::DateTime(x), CellValue::DateTime(y)) => *x == *y,
            (CellValue::Int(x), CellValue::Float(y)) => crate::numeric::int_eq_f64(*x, y.bits),
            (CellValue::Float(x), CellValue::Int(y)) => crate::numeric::int_eq_f64(*y, x.bits),
            _ => false,
        }
    }
}

impl vstd::std_specs::cmp::PartialEqSpecImpl for CellValue {
    open spec fn obeys_eq_spec() -> bool {
        true
    }

    open spec fn eq_spec(&self, other: &CellValue) -> bool {
        cell_eq((*self)@, (*other)@)
    }
}

impl Eq for CellValue {

}

impl CellValue {
    /// Whether the cell holds no value.
    pub fn is_null(&self) -> (r: bool)
        ensures
            r == (self@ matches CellV::Null),
    {
        match self {
            CellValue::Null => true,
            _ => false,
        }
    }

    /// Builds the display form of the cell.
    pub fn display(&self) -> (s: String)
        ensures
            s@ == display_of(self@),
    {
        match self {
            CellValue::Null => {
                proof {
                    reveal_strlit("NULL");
                }
                let s = String::from_str("NULL");
                proof {
                    assert(s@ =~= display_of(self@));
                }
                s
            },
            CellValue::Bool(b) => {
                proof {
                    reveal_strlit("true");
                    reveal_strlit("false");
                }
                let s = if *b {
                    String::from_str("true")
                } else {
                    String::from_str("false")
                };
                proof {
                    assert(s@ =~= display_of(self@));
                }
                s
            },
            CellValue::Int(i) => {
                let mut s = String::new();
                push_i64_dec(&mut s, *i);
                proof {
                    assert(s@ =~= display_of(self@));
                }
                s
            },
            CellValue::Float(f) => f.repr.clone(),
            CellValue::Text(t) => t.clone(),
            CellValue::Date(d) => {
                let mut s = String::new();
                push_date(&mut s, *d);
                proof {
                    assert(s@ =~= display_of(self@));
                }
                s
            },
            CellValue::DateTime(t) => {
                let mut s = String::new();
                push_datetime(&mut s, *t);
                proof {
                    assert(s@ =~= display_of(self@));
                }
                s
            },
        }
    }
}

/// Appends the display form of a date.
fn push_date(s: &mut String, d: Date)
    ensures
        final(s)@ == old(s)@ + date_str(d),
{
    proof {
        reveal_strlit("-");
    }
    push_pad4(s, d.year as u64);
    s.append("-");
    push_pad2(s, d.month as u64);
    s.append("-");
    push_pad2(s, d.day as u64);
    proof {
        assert(final(s)@ =~= old(s)@ + date_str(d));
    }
}

/// Appends the display form of a date-time.
fn push_datetime(s: &mut String, t: DateTime)
    ensures
        final(s)@ == old(s)@ + datetime_str(t),
{
    proof {
        reveal_strlit(" ");
        reveal_strlit(":");
        reveal_strlit(".");
    }
    push_date(s, t.date);
    s.append(" ");
    push_pad2(s, t.hour as u64);
    s.append(":");
    push_pad2(s, t.minute as u64);
    s.append(":");
    push_pad2(s, t.second as u64);
    if t.nano != 0 {
        s.append(".");
        let n = t.nano as u64;
        if n % 1000000 == 0 {
            push_pad3(s, n / 1000000);
        } else if n % 1000 == 0 {
            push_pad3(s, n / 1000000);
            push_pad3(s, n / 1000 % 1000);
        } else {
            push_pad3(s, n / 1000000);
            push_pad3(s, n / 1000 % 1000);
            push_pad3(s, n % 1000);
        }
    }
    proof {
        assert(final(s)@ =~= old(s)@ + datetime_str(t));
    }
}

/// Lexicographic order on character sequences by code point, the order in
/// which strings sort.
pub open spec fn lex_cmp(x: Seq<char>, y: Seq<char>) -> int
    decreases x.len(),
{
    if x.len() == 0 && y.len() == 0 {
        0
    } else if x.len() == 0 {
        -1
    } else if y.len() == 0 {
        1
    } else if (x[0] as u32) < (y[0] as u32) {
        -1
    } else if (y[0] as u32) < (x[0] as u32) {
        1
    } else {
        lex_cmp(x.drop_first(), y.drop_first())
    }
}

/// The sort order between two cells of a column: integers and doubles by
/// their numbers (a NaN ties with everything), text lexicographically, and
/// any other pairing ties.
pub open spec fn cell_order(a: CellV, b: CellV) -> int {
    match (a, b) {
        (CellV::Int(x), CellV::Int(y)) => if x < y {
            -1
        } else if x == y {
            0
        } else {
            1
        },
        (CellV::Float(x), CellV::Float(y)) => if f64_is_nan(x.bits) || f64_is_nan(y.bits) {
            0
        } else if f64_lt(x.bits, y.bits) {
            -1
        } else if f64_lt(y.bits, x.bits) {
            1
        } else {
            0
        },
        (CellV::Text(x), CellV::Text(y)) => lex_cmp(x, y),
        _ => 0,
    }
}

proof fn lemma_lex_flip(x: Seq<char>, y: Seq<char>)
    ensures
        lex_cmp(x, y) == -lex_cmp(y, x),
    decreases x.len(),
{
    if x.len() > 0 && y.len() > 0 && !((x[0] as u32) < (y[0] as u32)) && !((y[0] as u32) < (
    x[0] as u32)) {
        lemma_lex_flip(x.drop_first(), y.drop_first());
    }
}

proof fn lemma_f64_lt_asym(a: u64, b: u64)
    requires
        !f64_is_nan(a),
        !f64_is_nan(b),
    ensures
        !(f64_lt(a, b) && f64_lt(b, a)),
{
}

/// Swapping the operands flips the sort order.
pub proof fn lemma_cell_order_flip(a: CellV, b: CellV)
    ensures
        cell_order(a, b) == -cell_order(b, a),
{
    match (a, b) {
        (CellV::Float(x), CellV::Float(y)) => {
            if !f64_is_nan(x.bits) && !f64_is_nan(y.bits) {
                lemma_f64_lt_asym(x.bits, y.bits);
            }
        },
        (CellV::Text(x), CellV::Text(y)) => {
            lemma_lex_flip(x, y);
        },
        _ => {},
    }
}

proof fn lemma_lex_skip(x: Seq<char>, y: Seq<char>, i: int)
    requires
        0 <= i <= x.len(),
        i <= y.len(),
        forall|k: int| 0 <= k < i ==> x[k] == y[k],
    ensures
        lex_cmp(x, y) == lex_cmp(x.skip(i), y.skip(i)),
    decreases i,
{
    if i > 0 {
        assert(x.len() > 0 && y.len() > 0 && x[0] == y[0]);
        let x1 = x.drop_first();
        let y1 = y.drop_first();
        assert(forall|k: int| 0 <= k < i - 1 ==> x1[k] == y1[k]);
        lemma_lex_skip(x1, y1, i - 1);
        assert(x1.skip(i - 1) =~= x.skip(i));
        assert(y1.skip(i - 1) =~= y.skip(i));
    } else {
        assert(x.skip(0) =~= x);
        assert(y.skip(0) =~= y);
    }
}

/// Compares two strings in lexicographic code-point order.
pub fn str_lex_cmp(a: &str, b: &str) -> (o: i8)
    ensures
        -1 <= o <= 1,
        o as int == lex_cmp(a@, b@),
{
    let alen = a.unicode_len();
    let blen = b.unicode_len();
    let min = if alen < blen {
        alen
    } else {
        blen
    };
    let mut i: usize = 0;
    while i < min
        invariant
            0 <= i <= min,
            min == if alen < blen {
                alen
            } else {
                blen
            },
            alen == a@.len(),
            blen == b@.len(),
            forall|k: int| 0 <= k < i ==> a@[k] == b@[k],
        decreases min - i,
    {
        let ca = a.get_char(i) as u32;
        let cb = b.get_char(i) as u32;
        if ca < cb {
            proof {
                lemma_lex_skip(a@, b@, i as int);
                assert(a@.skip(i as int)[0] == a@[i as int]);
                assert(b@.skip(i as int)[0] == b@[i as int]);
            }
            return -1;
        }
        if cb < ca {
            proof {
                lemma_lex_skip(a@, b@, i as int);
                assert(a@.skip(i as int)[0] == a@[i as int]);
                assert(b@.skip(i as int)[0] == b@[i as int]);
            }
            return 1;
        }
        proof {
            assert(a@[i as int] as u32 == b@[i as int] as u32);
            assert(a@[i as int] == b@[i as int]);
        }
        i = i + 1;
    }
    proof {
        lemma_lex_skip(a@, b@, min as int);
    }
    if alen == blen {
        proof {
            assert(a@.skip(min as int).len() == 0);
            assert(b@.skip(min as int).len() == 0);
        }
        0
    } else if alen < blen {
        proof {
            assert(a@.skip(min as int).len() == 0);
            assert(b@.skip(min as int).len() > 0);
        }
        -1
    } else {
        proof {
            assert(b@.skip(min as int).len() == 0);
            assert(a@.skip(min as int).len() > 0);
        }
        1
    }
}

/// Compares two cells in column sort order.
pub fn cell_cmp(a: &CellValue, b: &CellValue) -> (o: i8)
    ensures
        -1 <= o <= 1,
        o as int == cell_order(a@, b@),
{
    match (a, b) {
        (CellValue::Int(x), CellValue::Int(y)) => {
            if *x < *y {
                -1
            } else if *x == *y {
                0
            } else {
                1
            }
        },
        (CellValue::Float(x), CellValue::Float(y)) => {
            if f64_nan_bits(x.bits) || f64_nan_bits(y.bits) {
                0
            } else {
                crate::numeric::f64_cmp(x.bits, y.bits)
            }
        },
        (CellValue::Text(x), CellValue::Text(y)) => str_lex_cmp(x.as_str(), y.as_str()),
        _ => 0,
    }
}

/// Whether the cell is an integer or a double.
pub open spec fn is_numeric(v: CellV) -> bool {
    v matches CellV::Int(_) || v matches CellV::Float(_)
}

/// Whether a numeric cell is a NaN double.
pub open spec fn num_nan(v: CellV) -> bool {
    v matches CellV::Float(f) && f64_is_nan(f.bits)
}

/// Whether a numeric cell is an infinite double.
pub open spec fn num_inf(v: CellV) -> bool {
    v matches CellV::Float(f) && f64_is_inf(f.bits)
}

/// The sign of a numeric cell.
pub open spec fn num_neg(v: CellV) -> bool {
    match v {
        CellV::Int(i) => i < 0,
        CellV::Float(f) => f64_sign(f.bits),
        _ => false,
    }
}

/// The integer mantissa of a finite numeric cell; an integer cell carries
/// the mantissa of its converted double value, so that relaxed comparison
/// reads every numeric operand as the double a cast would produce.
pub open spec fn num_mant(v: CellV) -> nat {
    match v {
        CellV::Int(i) => nearest_f64_mant(i64_mag(i)),
        CellV::Float(f) => f64_mant(f.bits),
        _ => 0,
    }
}

/// The binary exponent of a finite numeric cell; an integer cell carries
/// the exponent of its converted double value.
pub open spec fn num_exp(v: CellV) -> int {
    match v {
        CellV::Int(i) => nearest_f64_exp(i64_mag(i)),
        CellV::Float(f) => f64_exp(f.bits),
        _ => 0,
    }
}

/// Tolerance equality of two numeric cells, mirroring what comparing the
/// machine numbers would do: each operand is read as its double value (an
/// integer converts to the nearest double), any NaN makes the pair unequal,
/// an infinite distance is within the tolerance only when the tolerance is
/// the positive infinity, and finite values compare the exact distance of
/// the converted values against the tolerance's exact value.
pub open spec fn num_tol_eq(a: CellV, b: CellV, t: u64) -> bool
    recommends
        is_numeric(a),
        is_numeric(b),
{
    if num_nan(a) || num_nan(b) || f64_is_nan(t) {
        false
    } else if num_inf(a) && num_inf(b) {
        // the distance between same-signed infinities is undefined
        num_neg(a) != num_neg(b) && f64_is_inf(t) && !f64_sign(t)
    } else if num_inf(a) || num_inf(b) {
        f64_is_inf(t) && !f64_sign(t)
    } else if f64_is_inf(t) {
        !f64_sign(t)
    } else if f64_sign(t) && f64_mant(t) != 0 {
        false
    } else {
        within_tol(
            num_neg(a),
            num_mant(a),
            num_exp(a),
            num_neg(b),
            num_mant(b),
            num_exp(b),
            f64_mant(t),
            f64_exp(t),
        )
    }
}

/// Cell equality under a numeric tolerance: numeric pairs compare their
/// distance against the tolerance, every other pair falls back to exact
/// equality.
pub open spec fn cell_tol_eq(a: CellV, b: CellV, t: u64) -> bool {
    if is_numeric(a) && is_numeric(b) {
        num_tol_eq(a, b, t)
    } else {
        cell_eq(a, b)
    }
}

/// Cell equality ignoring ASCII case: text pairs compare case folded, every
/// other pair falls back to exact equality.
pub open spec fn cell_case_eq(a: CellV, b: CellV) -> bool {
    match (a, b) {
        (CellV::Text(x), CellV::Text(y)) => ascii_case_insensitive_eq(x, y),
        _ => cell_eq(a, b),
    }
}

/// Cell equality ignoring surrounding white space: text pairs compare
/// trimmed, every other pair falls back to exact equality.
pub open spec fn cell_ws_eq(a: CellV, b: CellV) -> bool {
    match (a, b) {
        (CellV::Text(x), CellV::Text(y)) => ws_insensitive_eq(x, y),
        _ => cell_eq(a, b),
    }
}

fn numeric_parts(v: &CellValue) -> (r: (bool, u64, i32))
    requires
        is_numeric(v@),
        !num_nan(v@),
        !num_inf(v@),
    ensures
        r.0 == num_neg(v@),
        r.1 as nat == num_mant(v@),
        r.2 as int == num_exp(v@),
        crate::numeric::exp_in_range(r.2 as int),
{
    match v {
        CellValue::Int(i) => i64_f64_parts(*i),
        CellValue::Float(f) => f64_unpack(f.bits),
        _ => {
            proof {
                assert(false);
            }
            (false, 0, 0)
        },
    }
}

impl CellValue {
    /// Compares two cells with a numeric tolerance given as the bit pattern
    /// of a double; non-numeric pairs compare exactly.
    pub fn equals_with_tolerance(&self, other: &CellValue, tolerance: u64) -> (r: bool)
        ensures
            r == cell_tol_eq(self@, other@, tolerance),
    {
        let a_num = match self {
            CellValue::Int(_) => true,
            CellValue::Float(_) => true,
            _ => false,
        };
        let b_num = match other {
            CellValue::Int(_) => true,
            CellValue::Float(_) => true,
            _ => false,
        };
        if !a_num || !b_num {
            return self == other;
        }
        let a_nan = match self {
            CellValue::Float(f) => f64_nan_bits(f.bits),
            _ => false,
        };
        let b_nan = match other {
            CellValue::Float(f) => f64_nan_bits(f.bits),
            _ => false,
        };
        if a_nan || b_nan || f64_nan_bits(tolerance) {
            return false;
        }
        let a_inf = match self {
            CellValue::Float(f) => !f64_finite_bits(f.bits),
            _ => false,
        };
        let b_inf = match other {
            CellValue::Float(f) => !f64_finite_bits(f.bits),
            _ => false,
        };
        let t_inf = !f64_finite_bits(tolerance);
        let t_neg = tolerance / 0x8000000000000000 == 1;
        if a_inf && b_inf {
            let a_neg = match self {
                CellValue::Float(f) => f.bits / 0x8000000000000000 == 1,
                _ => false,
            };
            let b_neg = match other {
                CellValue::Float(f) => f.bits / 0x8000000000000000 == 1,
                _ => false,
            };
            return a_neg != b_neg && t_inf && !t_neg;
        }
        if a_inf || b_inf {
            return t_inf && !t_neg;
        }
        if t_inf {
            return !t_neg;
        }
        let (st, mt, et) = f64_unpack(tolerance);
        if st && mt != 0 {
            return false;
        }
        let (sa, ma, ea) = numeric_parts(self);
        let (sb, mb, eb) = numeric_parts(other);
        within_tolerance_parts(sa, ma, ea, sb, mb, eb, mt, et)
    }

    /// Compares two cells ignoring ASCII case in text; non-text pairs
    /// compare exactly.
    pub fn equals_ignore_case(&self, other: &CellValue) -> (r: bool)
        ensures
            r == cell_case_eq(self@, other@),
    {
        match (self, other) {
            (CellValue::Text(x), CellValue::Text(y)) => str_eq_ignore_ascii_case(
                x.as_str(),
                y.as_str(),
            ),
            _ => self == other,
        }
    }

    /// Compares two cells ignoring surrounding white space in text;
    /// non-text pairs compare exactly.
    pub fn equals_ignore_whitespace(&self, other: &CellValue) -> (r: bool)
        ensures
            r == cell_ws_eq(self@, other@),
    {
        match (self, other) {
            (CellValue::Text(x), CellValue::Text(y)) => str_eq_ignore_ws(x.as_str(), y.as_str()),
            _ => self == other,
        }
    }
}

} // verus!
