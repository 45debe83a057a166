//! Scalar configuration values and the tokens the rule language spells them as.
use vstd::prelude::*;
use crate::text::{concat, digit_char, find, lemma_find_first, numeral, numeral_text, occurs_at, owned, str_eq};

verus! {

/// A scalar taken from the rule file; `Other` stands for a nested map or list.
#[derive(Debug, Clone)]
pub enum Scalar {
    Str(String),
    Int(i64),
    /// A real number, kept as the text it was written as.
    Real(String),
    Bool(bool),
    Other,
}

/// The decimal text of an integer.
pub open spec fn int_text(i: int) -> Seq<char> {
    if i < 0 {
        "-"@ + numeral((-i) as nat, 10)
    } else {
        numeral(i as nat, 10)
    }
}

/// The decimal text of an integer.
pub fn int_to_text(i: i64) -> (r: String)
    ensures
        r@ == int_text(i as int),
{
    if i < 0 {
        let m: u64 = (0 - (i as i128)) as u64;
        let digits = numeral_text(m, 10);
        concat("-", digits.as_str())
    } else {
        numeral_text(i as u64, 10)
    }
}

impl Scalar {
    /// The text of the value: `1` and `0` for booleans, nothing for a nested value.
    pub open spec fn text(&self) -> Seq<char> {
        match self {
            Scalar::Str(s) => s@,
            Scalar::Int(i) => int_text(*i as int),
            Scalar::Real(r) => r@,
            Scalar::Bool(b) => if *b { "1"@ } else { "0"@ },
            Scalar::Other => Seq::empty(),
        }
    }

    /// The value is a scalar, not a nested map or list.
    pub open spec fn is_scalar(&self) -> bool {
        !(self is Other)
    }
}

/// The value of a decimal digit.
pub open spec fn decimal_digit(c: char) -> Option<nat> {
    if '0' <= c && c <= '9' {
        Some((c as nat - '0' as nat) as nat)
    } else {
        None
    }
}

/// The value of a run of decimal digits, if every character is one.
pub open spec fn decimal_value(s: Seq<char>) -> Option<nat>
    decreases s.len(),
{
    if s.len() == 0 {
        Some(0)
    } else {
        match (decimal_value(s.drop_last()), decimal_digit(s.last())) {
            (Some(v), Some(d)) => Some(v * 10 + d),
            _ => None,
        }
    }
}

/// The integer a decimal text spells: digits, with a leading `-` for a
/// negative number.
pub open spec fn parse_int(s: Seq<char>) -> Option<int> {
    if s.len() > 0 && s[0] == '-' {
        let t = s.drop_first();
        match decimal_value(t) {
            Some(v) => if t.len() > 0 {
                Some(-(v as int))
            } else {
                None
            },
            None => None,
        }
    } else {
        match decimal_value(s) {
            Some(v) => if s.len() > 0 {
                Some(v as int)
            } else {
                None
            },
            None => None,
        }
    }
}

proof fn lemma_numeral_value(n: nat)
    ensures
        decimal_value(numeral(n, 10)) == Some(n),
        numeral(n, 10).len() > 0,
        forall|k: int| 0 <= k < numeral(n, 10).len() ==> #[trigger] numeral(n, 10)[k] != '-',
    decreases n,
{
    let d = n % 10;
    let c = digit_char(d);
    assert(decimal_digit(c) == Some(d)) by {
        assert(d < 10);
        if d == 0 {} else if d == 1 {} else if d == 2 {} else if d == 3 {} else if d == 4 {}
        else if d == 5 {} else if d == 6 {} else if d == 7 {} else if d == 8 {} else {}
    }
    if n < 10 {
        assert(numeral(n, 10) == seq![c]);
        assert(seq![c].drop_last() =~= Seq::<char>::empty());
        assert(decimal_value(Seq::<char>::empty()) == Some(0nat));
        assert(seq![c].last() == c);
        assert(d == n);
        assert(decimal_value(seq![c]) == Some(0 * 10 + d));
    } else {
        lemma_numeral_value(n / 10);
        let s = numeral(n, 10);
        assert(s == numeral(n / 10, 10).push(c));
        assert(s.drop_last() =~= numeral(n / 10, 10));
        assert((n / 10) * 10 + d == n);
        assert(s.last() == c);
        assert(decimal_value(s) == Some((n / 10) * 10 + d));
    }
}

/// An integer's text reads back as the same integer.
pub proof fn lemma_int_round_trip(i: int)
    ensures
        parse_int(int_text(i)) == Some(i),
{
    reveal_strlit("-");
    if i < 0 {
        let n = (-i) as nat;
        lemma_numeral_value(n);
        let s = int_text(i);
        assert(s[0] == '-');
        assert(s.drop_first() =~= numeral(n, 10));
    } else {
        lemma_numeral_value(i as nat);
    }
}

/// The text of a value, as a match clause spells it.
pub fn scalar_text(v: &Scalar) -> (r: String)
    ensures
        r@ == v.text(),
{
    match v {
        Scalar::Str(s) => s.clone(),
        Scalar::Int(i) => int_to_text(*i),
        Scalar::Real(r) => r.clone(),
        Scalar::Bool(b) => {
            if *b {
                owned("1")
            } else {
                owned("0")
            }
        },
        Scalar::Other => String::new(),
    }
}

/// The token of a string-valued property: the `plugin` field gives its value bare.
pub open spec fn field_param(field: Seq<char>, param: Seq<char>) -> Seq<char> {
    if field == "plugin"@ {
        param
    } else {
        field + " "@ + param
    }
}

/// The token of a boolean property; a disabled `dimaround` is spelled `nodim`.
pub open spec fn bool_token(field: Seq<char>, b: bool) -> Seq<char> {
    if b {
        field + " 1"@
    } else if field == "dimaround"@ {
        "nodim"@
    } else {
        field + " 0"@
    }
}

/// The token of a property, or `None` for a nested value.
pub open spec fn property_token(field: Seq<char>, v: Scalar) -> Option<Seq<char>> {
    match v {
        Scalar::Str(s) => Some(field_param(field, s@)),
        Scalar::Int(i) => Some(field + " "@ + int_text(i as int)),
        Scalar::Real(r) => Some(field + " "@ + r@),
        Scalar::Bool(b) => Some(bool_token(field, b)),
        Scalar::Other => None,
    }
}

/// The token of a string-valued property.
pub fn handle_property_field(field: &str, param: &str) -> (r: String)
    ensures
        r@ == field_param(field@, param@),
{
    if str_eq(field, "plugin") {
        owned(param)
    } else {
        let head = concat(field, " ");
        concat(head.as_str(), param)
    }
}

/// The token of a boolean property.
pub fn handle_bool_property(field: &str, b: bool) -> (r: String)
    ensures
        r@ == bool_token(field@, b),
        b ==> r@ == field@ + " 1"@,
        !b && field@ == "dimaround"@ ==> r@ == "nodim"@,
        !b && field@ != "dimaround"@ ==> r@ == field@ + " 0"@,
{
    if b {
        concat(field, " 1")
    } else if str_eq(field, "dimaround") {
        owned("nodim")
    } else {
        concat(field, " 0")
    }
}

/// The token of a property, or `None` for a nested value.
pub fn format_property(field: &str, v: &Scalar) -> (r: Option<String>)
    ensures
        match r {
            Some(t) => property_token(field@, *v) == Some(t@),
            None => property_token(field@, *v) is None,
        },
{
    match v {
        Scalar::Str(s) => Some(handle_property_field(field, s.as_str())),
        Scalar::Int(i) => {
            let head = concat(field, " ");
            let num = int_to_text(*i);
            Some(concat(head.as_str(), num.as_str()))
        },
        Scalar::Real(x) => {
            let head = concat(field, " ");
            Some(concat(head.as_str(), x.as_str()))
        },
        Scalar::Bool(b) => Some(handle_bool_property(field, *b)),
        Scalar::Other => None,
    }
}


/// A property token splits back, at its first space, into its field and the
/// text of its value: for a field without spaces other than `plugin`, and any
/// scalar but a disabled `dimaround`.
pub proof fn lemma_token_round_trip(field: Seq<char>, v: Scalar)
    requires
        forall|i: int| 0 <= i < field.len() ==> field[i] != ' ',
        field != "plugin"@,
        v.is_scalar(),
        !(field == "dimaround"@ && v == Scalar::Bool(false)),
    ensures
        property_token(field, v) matches Some(t) && {
            &&& find(t, " "@) == Some(field.len() as int)
            &&& t.subrange(0, field.len() as int) == field
            &&& t.subrange(field.len() as int + 1, t.len() as int) == v.text()
            &&& v matches Scalar::Int(i) ==> parse_int(
                t.subrange(field.len() as int + 1, t.len() as int),
            ) == Some(i as int)
        },
{
    if let Scalar::Int(i) = v {
        lemma_int_round_trip(i as int);
    }
    reveal_strlit(" ");
    reveal_strlit("1");
    reveal_strlit("0");
    reveal_strlit(" 1");
    reveal_strlit(" 0");
    let t = field + " "@ + v.text();
    assert(property_token(field, v) == Some(t)) by {
        match v {
            Scalar::Bool(b) => {
                if b {
                    assert(" 1"@ =~= " "@ + "1"@);
                } else {
                    assert(" 0"@ =~= " "@ + "0"@);
                }
            },
            _ => {},
        }
    }
    assert(t.subrange(field.len() as int, field.len() as int + 1) =~= " "@);
    assert forall|j: int| 0 <= j < field.len() implies !occurs_at(t, " "@, j) by {
        assert(t.subrange(j, j + 1)[0] == field[j]);
    }
    lemma_find_first(t, " "@, field.len() as int);
    assert(t.subrange(0, field.len() as int) =~= field);
    assert(t.subrange(field.len() as int + 1, t.len() as int) =~= v.text());
}

} // verus!
