use vstd::prelude::*;

verus! {

/// A floating-point cell, held as its IEEE-754 bit pattern together with the
/// text the dataframe engine renders for it.
#[derive(Debug, PartialEq)]
pub struct Real {
    pub bits: u64,
    pub text: String,
}

/// One cell of a dataset.
#[derive(Debug, PartialEq)]
pub enum Value {
    Null,
    Bool(bool),
    Int(i64),
    Float(Real),
    Text(String),
}

/// Strict lexicographic order on character sequences (by code point).
pub open spec fn text_lt(a: Seq<char>, b: Seq<char>) -> bool
    decreases a.len(),
{
    if a.len() == 0 {
        b.len() > 0
    } else if b.len() == 0 {
        false
    } else if a[0] != b[0] {
        (a[0] as int) < (b[0] as int)
    } else {
        text_lt(a.drop_first(), b.drop_first())
    }
}

/// The magnitude bits of a float: its bit pattern without the sign bit.
pub open spec fn float_magnitude(bits: u64) -> int {
    if bits >= 0x8000_0000_0000_0000u64 {
        bits - 0x8000_0000_0000_0000u64
    } else {
        bits as int
    }
}

/// Position of a float in numeric order, as a non-negative integer: the two
/// zeros share one position, and every NaN shares the last one.
pub open spec fn float_rank(bits: u64) -> int {
    let m = float_magnitude(bits);
    if m > 0x7FF0_0000_0000_0000u64 {
        0xFFFF_FFFF_FFFF_FFFFu64 as int
    } else if bits >= 0x8000_0000_0000_0000u64 {
        0x8000_0000_0000_0000u64 - m
    } else {
        0x8000_0000_0000_0000u64 + m
    }
}

/// The sort key of a cell: a kind rank (nulls first), a numeric part and a text part.
pub open spec fn key_of(v: Value) -> (int, int, Seq<char>) {
    match v {
        Value::Null => (0, 0, Seq::empty()),
        Value::Bool(b) => (1, if b { 1int } else { 0int }, Seq::empty()),
        Value::Int(i) => (2, i as int, Seq::empty()),
        Value::Float(r) => (3, float_rank(r.bits), Seq::empty()),
        Value::Text(s) => (4, 0, s@),
    }
}

/// Strict order on sort keys.
pub open spec fn key_lt(a: (int, int, Seq<char>), b: (int, int, Seq<char>)) -> bool {
    a.0 < b.0 || (a.0 == b.0 && (a.1 < b.1 || (a.1 == b.1 && text_lt(a.2, b.2))))
}

/// Strict order on cells.
pub open spec fn value_lt(a: Value, b: Value) -> bool {
    key_lt(key_of(a), key_of(b))
}

/// Two cells that the sort order does not tell apart.
pub open spec fn value_ties(a: Value, b: Value) -> bool {
    key_of(a) == key_of(b)
}

pub open spec fn digit_char(d: int) -> char {
    if d == 0 {
        '0'
    } else if d == 1 {
        '1'
    } else if d == 2 {
        '2'
    } else if d == 3 {
        '3'
    } else if d == 4 {
        '4'
    } else if d == 5 {
        '5'
    } else if d == 6 {
        '6'
    } else if d == 7 {
        '7'
    } else if d == 8 {
        '8'
    } else {
        '9'
    }
}

/// Decimal digits of a natural number, most significant first.
pub open spec fn digits(n: nat) -> Seq<char>
    decreases n,
{
    if n < 10 {
        seq![digit_char(n as int)]
    } else {
        digits(n / 10).push(digit_char((n % 10) as int))
    }
}

/// Decimal rendering of an integer, with a leading minus sign when negative.
pub open spec fn decimal(i: int) -> Seq<char> {
    if i < 0 {
        seq!['-'] + digits((-i) as nat)
    } else {
        digits(i as nat)
    }
}

/// The cell cast to a string; a null cell has no text.
pub open spec fn text_of(v: Value) -> Option<Seq<char>> {
    match v {
        Value::Null => None,
        Value::Bool(b) => Some(
            if b {
                seq!['t', 'r', 'u', 'e']
            } else {
                seq!['f', 'a', 'l', 's', 'e']
            },
        ),
        Value::Int(i) => Some(decimal(i as int)),
        Value::Float(r) => Some(r.text@),
        Value::Text(s) => Some(s@),
    }
}

/// `needle` occurs in `hay` as a contiguous run.
pub open spec fn occurs_at(needle: Seq<char>, hay: Seq<char>, at: int) -> bool {
    0 <= at && at + needle.len() <= hay.len() && hay.subrange(at, at + needle.len()) == needle
}

pub open spec fn is_substring(needle: Seq<char>, hay: Seq<char>) -> bool {
    exists|at: int| occurs_at(needle, hay, at)
}

pub proof fn lemma_text_lt_irreflexive(a: Seq<char>)
    ensures
        !text_lt(a, a),
    decreases a.len(),
{
    if a.len() > 0 {
        lemma_text_lt_irreflexive(a.drop_first());
    }
}

pub proof fn lemma_text_lt_transitive(a: Seq<char>, b: Seq<char>, c: Seq<char>)
    requires
        text_lt(a, b),
        text_lt(b, c),
    ensures
        text_lt(a, c),
    decreases a.len(),
{
    if a.len() > 0 && b.len() > 0 && c.len() > 0 {
        if a[0] == b[0] && b[0] == c[0] {
            lemma_text_lt_transitive(a.drop_first(), b.drop_first(), c.drop_first());
        }
    }
}

pub proof fn lemma_text_lt_total(a: Seq<char>, b: Seq<char>)
    requires
        a != b,
    ensures
        text_lt(a, b) || text_lt(b, a),
    decreases a.len(),
{
    if a.len() > 0 && b.len() > 0 {
        if a[0] == b[0] {
            if a.drop_first() == b.drop_first() {
                assert(a =~= seq![a[0]] + a.drop_first());
                assert(b =~= seq![b[0]] + b.drop_first());
            }
            lemma_text_lt_total(a.drop_first(), b.drop_first());
        } else {
            assert((a[0] as int) != (b[0] as int));
        }
    } else if a.len() == 0 && b.len() == 0 {
        assert(a =~= b);
    }
}

/// The order on cells is a strict total order up to ties.
pub proof fn lemma_value_order(a: Value, b: Value, c: Value)
    ensures
        !value_lt(a, a),
        value_lt(a, b) ==> !value_lt(b, a),
        value_lt(a, b) && value_lt(b, c) ==> value_lt(a, c),
        value_lt(a, b) ==> !value_ties(a, b),
        !value_ties(a, b) ==> value_lt(a, b) || value_lt(b, a),
        value_ties(a, b) && value_ties(b, c) ==> value_ties(a, c),
        value_ties(a, b) ==> value_ties(b, a),
{
    let (ka, kb, kc) = (key_of(a), key_of(b), key_of(c));
    lemma_text_lt_irreflexive(ka.2);
    lemma_text_lt_irreflexive(kb.2);
    if value_lt(a, b) && value_lt(b, a) {
        lemma_text_lt_transitive(ka.2, kb.2, ka.2);
    }
    if value_lt(a, b) && value_lt(b, c) && ka.0 == kb.0 && kb.0 == kc.0 && ka.1 == kb.1 && kb.1
        == kc.1 {
        lemma_text_lt_transitive(ka.2, kb.2, kc.2);
    }
    if !value_ties(a, b) && ka.0 == kb.0 && ka.1 == kb.1 {
        if ka.2 == kb.2 {
            assert(ka == kb);
        }
        lemma_text_lt_total(ka.2, kb.2);
    }
}

impl Real {
    pub fn copy(&self) -> (r: Real)
        ensures
            r == *self,
    {
        Real { bits: self.bits, text: self.text.clone() }
    }
}

impl Value {
    /// A copy of the cell, equal to it.
    pub fn copy(&self) -> (r: Value)
        ensures
            r == *self,
    {
        match self {
            Value::Null => Value::Null,
            Value::Bool(b) => Value::Bool(*b),
            Value::Int(i) => Value::Int(*i),
            Value::Float(x) => Value::Float(x.copy()),
            Value::Text(s) => Value::Text(s.clone()),
        }
    }

    /// Whether the cell is null.
    pub fn is_null(&self) -> (r: bool)
        ensures
            r == (*self is Null),
    {
        match self {
            Value::Null => true,
            _ => false,
        }
    }

    /// The cell cast to a string, as characters; `None` for a null cell.
    pub fn text(&self) -> (r: Option<Vec<char>>)
        ensures
            match r {
                Some(t) => text_of(*self) == Some(t@),
                None => text_of(*self) is None,
            },
    {
        match self {
            Value::Null => None,
            Value::Bool(b) => {
                if *b {
                    Some(vec!['t', 'r', 'u', 'e'])
                } else {
                    Some(vec!['f', 'a', 'l', 's', 'e'])
                }
            },
            Value::Int(i) => {
                let mut out: Vec<char> = Vec::new();
                push_decimal(*i, &mut out);
                proof {
                    assert(out@ =~= decimal(*i as int));
                }
                Some(out)
            },
            Value::Float(x) => Some(chars_of(x.text.as_str())),
            Value::Text(s) => Some(chars_of(s.as_str())),
        }
    }
}

/// The characters of a string, in order.
pub fn chars_of(s: &str) -> (r: Vec<char>)
    ensures
        r@ == s@,
{
    let n = s.unicode_len();
    let mut out: Vec<char> = Vec::new();
    let mut i: usize = 0;
    while i < n
        invariant
            n == s@.len(),
            i <= n,
            out@ == s@.subrange(0, i as int),
        decreases n - i,
    {
        out.push(s.get_char(i));
        i = i + 1;
        assert(out@ =~= s@.subrange(0, i as int));
    }
    assert(out@ =~= s@);
    out
}

fn digit(d: u64) -> (c: char)
    requires
        d < 10,
    ensures
        c == digit_char(d as int),
{
    if d == 0 {
        '0'
    } else if d == 1 {
        '1'
    } else if d == 2 {
        '2'
    } else if d == 3 {
        '3'
    } else if d == 4 {
        '4'
    } else if d == 5 {
        '5'
    } else if d == 6 {
        '6'
    } else if d == 7 {
        '7'
    } else if d == 8 {
        '8'
    } else {
        '9'
    }
}

fn push_digits(n: u64, out: &mut Vec<char>)
    ensures
        final(out)@ == old(out)@ + digits(n as nat),
    decreases n,
{
    if n >= 10 {
        push_digits(n / 10, out);
        out.push(digit(n % 10));
        assert(final(out)@ =~= old(out)@ + digits(n as nat));
    } else {
        out.push(digit(n));
        assert(final(out)@ =~= old(out)@ + digits(n as nat));
    }
}

fn push_decimal(i: i64, out: &mut Vec<char>)
    ensures
        final(out)@ == old(out)@ + decimal(i as int),
{
    if i < 0 {
        out.push('-');
        let m: u64 = (0i128 - (i as i128)) as u64;
        push_digits(m, out);
        assert(final(out)@ =~= old(out)@ + decimal(i as int));
    } else {
        push_digits(i as u64, out);
    }
}

/// Whether two strings hold the same characters.
pub fn same_text(a: &str, b: &str) -> (r: bool)
    ensures
        r == (a@ == b@),
{
    let n = a.unicode_len();
    if n != b.unicode_len() {
        return false;
    }
    let mut i: usize = 0;
    while i < n
        invariant
            n == a@.len(),
            n == b@.len(),
            i <= n,
            a@.subrange(0, i as int) == b@.subrange(0, i as int),
        decreases n - i,
    {
        if a.get_char(i) != b.get_char(i) {
            assert(a@[i as int] != b@[i as int]);
            return false;
        }
        i = i + 1;
        assert(a@.subrange(0, i as int) =~= a@.subrange(0, i - 1).push(a@[i - 1]));
        assert(b@.subrange(0, i as int) =~= b@.subrange(0, i - 1).push(b@[i - 1]));
    }
    assert(a@ =~= a@.subrange(0, n as int));
    assert(b@ =~= b@.subrange(0, n as int));
    true
}

/// Whether the characters of `a` come strictly before those of `b`.
pub fn text_less(a: &str, b: &str) -> (r: bool)
    ensures
        r == text_lt(a@, b@),
{
    let n = a.unicode_len();
    let m = b.unicode_len();
    let mut i: usize = 0;
    assert(a@.skip(0) =~= a@);
    assert(b@.skip(0) =~= b@);
    while i < n && i < m
        invariant
            n == a@.len(),
            m == b@.len(),
            i <= n,
            i <= m,
            text_lt(a@, b@) == text_lt(a@.skip(i as int), b@.skip(i as int)),
        decreases n - i,
    {
        let ca = a.get_char(i);
        let cb = b.get_char(i);
        if ca != cb {
            return (ca as u32) < (cb as u32);
        }
        assert(a@.skip(i as int).drop_first() =~= a@.skip(i + 1));
        assert(b@.skip(i as int).drop_first() =~= b@.skip(i + 1));
        i = i + 1;
    }
    i < m
}

/// Whether cell `a` sorts strictly before cell `b`.
pub fn less(a: &Value, b: &Value) -> (r: bool)
    ensures
        r == value_lt(*a, *b),
{
    let ra = rank(a);
    let rb = rank(b);
    if ra != rb {
        return ra < rb;
    }
    match (a, b) {
        (Value::Bool(x), Value::Bool(y)) => !*x && *y,
        (Value::Int(x), Value::Int(y)) => *x < *y,
        (Value::Float(x), Value::Float(y)) => float_order(x.bits) < float_order(y.bits),
        (Value::Text(x), Value::Text(y)) => text_less(x.as_str(), y.as_str()),
        _ => {
            proof {
                lemma_text_lt_irreflexive(Seq::<char>::empty());
            }
            false
        },
    }
}

fn rank(v: &Value) -> (r: u8)
    ensures
        r as int == key_of(*v).0,
{
    match v {
        Value::Null => 0,
        Value::Bool(_) => 1,
        Value::Int(_) => 2,
        Value::Float(_) => 3,
        Value::Text(_) => 4,
    }
}

fn float_order(bits: u64) -> (r: u64)
    ensures
        r as int == float_rank(bits),
{
    let negative = bits >= 0x8000_0000_0000_0000u64;
    let m: u64 = if negative {
        bits - 0x8000_0000_0000_0000u64
    } else {
        bits
    };
    if m > 0x7FF0_0000_0000_0000u64 {
        0xFFFF_FFFF_FFFF_FFFFu64
    } else if negative {
        0x8000_0000_0000_0000u64 - m
    } else {
        0x8000_0000_0000_0000u64 + m
    }
}

} // verus!
