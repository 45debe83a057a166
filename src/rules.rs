//! Compiling one match/properties pair into rule-language text and runtime commands.
use vstd::prelude::*;
use crate::config::LoadError;
use crate::text::{
    concat, indent, indent_lines, join, join_with, numeral, numeral_text, owned, replace_first,
    replace_first_text, str_eq, views,
};
use crate::value::{format_property, lemma_int_round_trip, parse_int, int_text, int_to_text, property_token, scalar_text, Scalar};
use crate::window::Window;
use vstd::multiset::Multiset;
use vstd::seq_lib::{commutative_foldr, lemma_fold_right_permutation};

verus! {

/// The property kinds that can also be applied at runtime by a dispatch command.
#[derive(Debug, Clone, Copy, PartialEq, Eq, Structural)]
pub enum StaticRules {
    Float,
    Tile,
    Fullscreen,
    Maximize,
    Move,
    Size,
    Center,
    Workspace,
    Pin,
    /// A field outside the closed set.
    Unlisted,
}

impl StaticRules {
    /// The kind named by a property field.
    pub open spec fn spec_from(name: Seq<char>) -> StaticRules {
        if name == "float"@ {
            StaticRules::Float
        } else if name == "tile"@ {
            StaticRules::Tile
        } else if name == "fullscreen"@ {
            StaticRules::Fullscreen
        } else if name == "maximize"@ {
            StaticRules::Maximize
        } else if name == "move"@ {
            StaticRules::Move
        } else if name == "size"@ {
            StaticRules::Size
        } else if name == "center"@ {
            StaticRules::Center
        } else if name == "workspace"@ {
            StaticRules::Workspace
        } else if name == "pin"@ {
            StaticRules::Pin
        } else {
            StaticRules::Unlisted
        }
    }

    /// The dispatch verb of the kind.
    pub open spec fn verb(self) -> Option<Seq<char>> {
        match self {
            StaticRules::Float => Some("setfloating"@),
            StaticRules::Tile => Some("settiled"@),
            StaticRules::Fullscreen => Some("fullscreen"@),
            StaticRules::Maximize => Some("fullscreen 1"@),
            StaticRules::Move => Some("movewindowpixel exact"@),
            StaticRules::Size => Some("resizewindowpixel exact"@),
            StaticRules::Center => Some("centerwindow"@),
            StaticRules::Workspace => Some("movetoworkspace"@),
            StaticRules::Pin => Some("pin"@),
            StaticRules::Unlisted => None,
        }
    }

    /// The kind's command takes the field's value as its parameter.
    pub open spec fn takes_parameter(self) -> bool {
        self is Move || self is Size || self is Workspace
    }

    /// The kind named by a property field.
    pub fn from_str(name: &str) -> (r: StaticRules)
        ensures
            r == Self::spec_from(name@),
    {
        if str_eq(name, "float") {
            StaticRules::Float
        } else if str_eq(name, "tile") {
            StaticRules::Tile
        } else if str_eq(name, "fullscreen") {
            StaticRules::Fullscreen
        } else if str_eq(name, "maximize") {
            StaticRules::Maximize
        } else if str_eq(name, "move") {
            StaticRules::Move
        } else if str_eq(name, "size") {
            StaticRules::Size
        } else if str_eq(name, "center") {
            StaticRules::Center
        } else if str_eq(name, "workspace") {
            StaticRules::Workspace
        } else if str_eq(name, "pin") {
            StaticRules::Pin
        } else {
            StaticRules::Unlisted
        }
    }

    /// The dispatch verb for a property field, if the field is in the closed set.
    pub fn command_from_str(name: &str) -> (r: Option<String>)
        ensures
            match r {
                Some(v) => Self::spec_from(name@).verb() == Some(v@),
                None => Self::spec_from(name@).verb() is None,
            },
    {
        match StaticRules::from_str(name) {
            StaticRules::Float => Some(owned("setfloating")),
            StaticRules::Tile => Some(owned("settiled")),
            StaticRules::Fullscreen => Some(owned("fullscreen")),
            StaticRules::Maximize => Some(owned("fullscreen 1")),
            StaticRules::Move => Some(owned("movewindowpixel exact")),
            StaticRules::Size => Some(owned("resizewindowpixel exact")),
            StaticRules::Center => Some(owned("centerwindow")),
            StaticRules::Workspace => Some(owned("movetoworkspace")),
            StaticRules::Pin => Some(owned("pin")),
            StaticRules::Unlisted => None,
        }
    }
}

/// The dispatch fragment of one property, if it has one: the verb, then for a
/// parametric kind the value and a trailing comma, else a trailing space.
pub open spec fn dispatch_fragment(field: Seq<char>, v: Scalar) -> Option<Seq<char>> {
    let kind = StaticRules::spec_from(field);
    match kind.verb() {
        None => None,
        Some(verb) => if kind.takes_parameter() {
            match v {
                Scalar::Str(s) => Some(verb + " "@ + s@ + ","@),
                Scalar::Int(i) => Some(verb + " "@ + int_text(i as int) + ","@),
                _ => None,
            }
        } else if v is Other {
            None
        } else {
            Some(verb + " "@)
        },
    }
}

/// The fragment of a parametric property gives back the value it was made
/// from: it is the verb, a space, the value's text and a comma.
pub proof fn lemma_parametric_round_trip(field: Seq<char>, v: Scalar)
    requires
        StaticRules::spec_from(field).takes_parameter(),
        v is Str || v is Int,
    ensures
        dispatch_fragment(field, v) matches Some(f) && {
            let verb = StaticRules::spec_from(field).verb()->0;
            &&& f == verb + " "@ + v.text() + ","@
            &&& f.subrange(0, verb.len() as int) == verb
            &&& f.subrange(verb.len() as int + 1, f.len() - 1) == v.text()
            &&& f.last() == ','
            &&& v matches Scalar::Int(i) ==> parse_int(
                f.subrange(verb.len() as int + 1, f.len() - 1),
            ) == Some(i as int)
        },
{
    if let Scalar::Int(i) = v {
        lemma_int_round_trip(i as int);
    }
    reveal_strlit(" ");
    reveal_strlit(",");
    let verb = StaticRules::spec_from(field).verb()->0;
    let f = verb + " "@ + v.text() + ","@;
    assert(f.subrange(0, verb.len() as int) =~= verb);
    assert(f.subrange(verb.len() as int + 1, f.len() - 1) =~= v.text());
}

/// A property in the closed set dispatches its kind's fixed verb, and no
/// other property dispatches anything.
pub proof fn lemma_fragment_verb(field: Seq<char>, v: Scalar)
    ensures
        StaticRules::spec_from(field) is Unlisted ==> dispatch_fragment(field, v) is None,
        dispatch_fragment(field, v) matches Some(f) ==> {
            let verb = StaticRules::spec_from(field).verb()->0;
            &&& StaticRules::spec_from(field).verb() is Some
            &&& verb.len() < f.len()
            &&& f.subrange(0, verb.len() as int) == verb
            &&& f[verb.len() as int] == ' '
        },
{
    reveal_strlit(" ");
    reveal_strlit(",");
    if let Some(f) = dispatch_fragment(field, v) {
        let verb = StaticRules::spec_from(field).verb()->0;
        assert(f.subrange(0, verb.len() as int) =~= verb);
    }
}

/// One step of counting a record's fragments.
pub open spec fn fragment_count() -> spec_fn((String, Scalar), Multiset<Seq<char>>) -> Multiset<
    Seq<char>,
> {
    |e: (String, Scalar), m: Multiset<Seq<char>>|
        match dispatch_fragment(e.0@, e.1) {
            Some(t) => m.insert(t),
            None => m,
        }
}

/// One step of counting a record's tokens.
pub open spec fn token_count() -> spec_fn((String, Scalar), Multiset<Seq<char>>) -> Multiset<
    Seq<char>,
> {
    |e: (String, Scalar), m: Multiset<Seq<char>>|
        match property_token(e.0@, e.1) {
            Some(t) => m.insert(t),
            None => m,
        }
}

proof fn lemma_fragment_count(ps: Seq<(String, Scalar)>, m: Multiset<Seq<char>>)
    ensures
        ps.fold_right(fragment_count(), m) == dispatch_fragments(ps).to_multiset().add(m),
        ps.fold_right(token_count(), m) == property_tokens(ps).to_multiset().add(m),
    decreases ps.len(),
{
    broadcast use vstd::seq_lib::group_to_multiset_ensures, vstd::multiset::group_multiset_axioms;

    if ps.len() == 0 {
        assert(dispatch_fragments(ps).to_multiset().add(m) =~= m);
        assert(property_tokens(ps).to_multiset().add(m) =~= m);
    } else {
        let e = ps.last();
        lemma_fragment_count(ps.drop_last(), (fragment_count())(e, m));
        lemma_fragment_count(ps.drop_last(), (token_count())(e, m));
        let f = dispatch_fragments(ps.drop_last());
        let t = property_tokens(ps.drop_last());
        match dispatch_fragment(e.0@, e.1) {
            Some(x) => {
                assert(f.push(x).to_multiset() =~= f.to_multiset().insert(x));
                assert(f.to_multiset().add(m.insert(x)) =~= f.push(x).to_multiset().add(m));
            },
            None => {},
        }
        match property_token(e.0@, e.1) {
            Some(x) => {
                assert(t.push(x).to_multiset() =~= t.to_multiset().insert(x));
                assert(t.to_multiset().add(m.insert(x)) =~= t.push(x).to_multiset().add(m));
            },
            None => {},
        }
    }
}

/// Reordering a properties record only reorders what it compiles to: records
/// holding the same entries in any order give the same tokens and the same
/// dispatch fragments, each as many times.
pub proof fn lemma_reorder_properties(a: Seq<(String, Scalar)>, b: Seq<(String, Scalar)>)
    requires
        a.to_multiset() == b.to_multiset(),
    ensures
        dispatch_fragments(a).to_multiset() == dispatch_fragments(b).to_multiset(),
        property_tokens(a).to_multiset() == property_tokens(b).to_multiset(),
{
    broadcast use vstd::multiset::group_multiset_axioms;

    let empty = Multiset::<Seq<char>>::empty();
    assert(commutative_foldr(fragment_count())) by {
        assert forall|x: (String, Scalar), y: (String, Scalar), v: Multiset<Seq<char>>|
            #[trigger] (fragment_count())(x, (fragment_count())(y, v)) == (fragment_count())(
                y,
                (fragment_count())(x, v),
            ) by {
            assert((fragment_count())(x, (fragment_count())(y, v)) =~= (fragment_count())(
                y,
                (fragment_count())(x, v),
            ));
        }
    }
    assert(commutative_foldr(token_count())) by {
        assert forall|x: (String, Scalar), y: (String, Scalar), v: Multiset<Seq<char>>|
            #[trigger] (token_count())(x, (token_count())(y, v)) == (token_count())(
                y,
                (token_count())(x, v),
            ) by {
            assert((token_count())(x, (token_count())(y, v)) =~= (token_count())(
                y,
                (token_count())(x, v),
            ));
        }
    }
    lemma_fold_right_permutation(a, b, fragment_count(), empty);
    lemma_fold_right_permutation(a, b, token_count(), empty);
    lemma_fragment_count(a, empty);
    lemma_fragment_count(b, empty);
    assert(dispatch_fragments(a).to_multiset().add(empty) =~= dispatch_fragments(a).to_multiset());
    assert(dispatch_fragments(b).to_multiset().add(empty) =~= dispatch_fragments(b).to_multiset());
    assert(property_tokens(a).to_multiset().add(empty) =~= property_tokens(a).to_multiset());
    assert(property_tokens(b).to_multiset().add(empty) =~= property_tokens(b).to_multiset());
}

/// Each property contributes its own fragment whatever surrounds it: the
/// fragments of two records written one after the other are those of the
/// first followed by those of the second, in either order.
pub proof fn lemma_fragments_split(a: Seq<(String, Scalar)>, b: Seq<(String, Scalar)>)
    ensures
        dispatch_fragments(a + b) == dispatch_fragments(a) + dispatch_fragments(b),
        dispatch_fragments(b + a) == dispatch_fragments(b) + dispatch_fragments(a),
{
    lemma_fragments_append(a, b);
    lemma_fragments_append(b, a);
}

proof fn lemma_fragments_append(a: Seq<(String, Scalar)>, b: Seq<(String, Scalar)>)
    ensures
        dispatch_fragments(a + b) == dispatch_fragments(a) + dispatch_fragments(b),
    decreases b.len(),
{
    if b.len() == 0 {
        assert(a + b =~= a);
        assert(dispatch_fragments(b) =~= Seq::<Seq<char>>::empty());
        assert(dispatch_fragments(a) + dispatch_fragments(b) =~= dispatch_fragments(a));
    } else {
        assert((a + b).drop_last() =~= a + b.drop_last());
        assert((a + b).last() == b.last());
        lemma_fragments_append(a, b.drop_last());
        match dispatch_fragment(b.last().0@, b.last().1) {
            Some(t) => {
                assert(dispatch_fragments(a) + dispatch_fragments(b) =~= (dispatch_fragments(a)
                    + dispatch_fragments(b.drop_last())).push(t));
            },
            None => {},
        }
    }
}

/// The property tokens of a properties record, in order.
pub open spec fn property_tokens(ps: Seq<(String, Scalar)>) -> Seq<Seq<char>>
    decreases ps.len(),
{
    if ps.len() == 0 {
        Seq::empty()
    } else {
        let rest = property_tokens(ps.drop_last());
        match property_token(ps.last().0@, ps.last().1) {
            Some(t) => rest.push(t),
            None => rest,
        }
    }
}

/// The dispatch fragments of a properties record, in order.
pub open spec fn dispatch_fragments(ps: Seq<(String, Scalar)>) -> Seq<Seq<char>>
    decreases ps.len(),
{
    if ps.len() == 0 {
        Seq::empty()
    } else {
        let rest = dispatch_fragments(ps.drop_last());
        match dispatch_fragment(ps.last().0@, ps.last().1) {
            Some(t) => rest.push(t),
            None => rest,
        }
    }
}

/// The field that marks a match as following a window.
pub open spec fn is_follow_key(k: Seq<char>) -> bool {
    k == "follow-title"@ || k == "follow"@
}

/// One token of a match clause.
pub open spec fn match_token(k: Seq<char>, v: Scalar, named: bool) -> Seq<char> {
    if named {
        k + " = "@ + v.text()
    } else {
        k + ":"@ + v.text()
    }
}

/// The tokens of a match clause, in order, without the follow field.
pub open spec fn match_tokens(ms: Seq<(String, Scalar)>, named: bool) -> Seq<Seq<char>>
    decreases ms.len(),
{
    if ms.len() == 0 {
        Seq::empty()
    } else {
        let rest = match_tokens(ms.drop_last(), named);
        if is_follow_key(ms.last().0@) {
            rest
        } else {
            rest.push(match_token(ms.last().0@, ms.last().1, named))
        }
    }
}

/// The match clause: tokens joined by commas, or by newlines for a named rule.
pub open spec fn clause(ms: Seq<(String, Scalar)>, named: bool) -> Seq<char> {
    join(match_tokens(ms, named), if named { "\n"@ } else { ","@ })
}

/// The text of the last value given to `key`, if any.
pub open spec fn lookup(ms: Seq<(String, Scalar)>, key: Seq<char>) -> Option<Seq<char>>
    decreases ms.len(),
{
    if ms.len() == 0 {
        None
    } else if ms.last().0@ == key {
        Some(ms.last().1.text())
    } else {
        lookup(ms.drop_last(), key)
    }
}

/// The match record sets its follow flag.
pub open spec fn follows(ms: Seq<(String, Scalar)>) -> bool
    decreases ms.len(),
{
    if ms.len() == 0 {
        false
    } else {
        (is_follow_key(ms.last().0@) && ms.last().1 == Scalar::Bool(true)) || follows(
            ms.drop_last(),
        )
    }
}

/// The view of an optional string.
pub open spec fn opt_view(o: Option<String>) -> Option<Seq<char>> {
    match o {
        Some(s) => Some(s@),
        None => None,
    }
}

/// Two values of the same kind that read the same.
pub open spec fn same_scalar(a: Scalar, b: Scalar) -> bool {
    match (a, b) {
        (Scalar::Str(x), Scalar::Str(y)) => x@ == y@,
        (Scalar::Int(x), Scalar::Int(y)) => x == y,
        (Scalar::Real(x), Scalar::Real(y)) => x@ == y@,
        (Scalar::Bool(x), Scalar::Bool(y)) => x == y,
        (Scalar::Other, Scalar::Other) => true,
        _ => false,
    }
}

/// Two records that read the same, field by field.
pub open spec fn same_entries(a: Seq<(String, Scalar)>, b: Seq<(String, Scalar)>) -> bool {
    &&& a.len() == b.len()
    &&& forall|i: int|
        0 <= i < a.len() ==> #[trigger] a[i].0@ == b[i].0@ && same_scalar(a[i].1, b[i].1)
}

/// Records that read the same compile to the same clause, tokens, fragments,
/// title, class and follow flag.
pub proof fn lemma_same_entries(a: Seq<(String, Scalar)>, b: Seq<(String, Scalar)>, named: bool)
    requires
        same_entries(a, b),
    ensures
        match_tokens(a, named) == match_tokens(b, named),
        clause(a, named) == clause(b, named),
        property_tokens(a) == property_tokens(b),
        dispatch_fragments(a) == dispatch_fragments(b),
        lookup(a, "title"@) == lookup(b, "title"@),
        lookup(a, "class"@) == lookup(b, "class"@),
        follows(a) == follows(b),
    decreases a.len(),
{
    if a.len() > 0 {
        let n = a.len() - 1;
        assert(a[n].0@ == b[n].0@ && same_scalar(a[n].1, b[n].1));
        assert(same_entries(a.drop_last(), b.drop_last())) by {
            assert forall|i: int| 0 <= i < a.drop_last().len() implies #[trigger] a.drop_last()[i].0@
                == b.drop_last()[i].0@ && same_scalar(a.drop_last()[i].1, b.drop_last()[i].1) by {
                assert(a[i].0@ == b[i].0@ && same_scalar(a[i].1, b[i].1));
            }
        }
        lemma_same_entries(a.drop_last(), b.drop_last(), named);
        let (x, y) = (a.last().1, b.last().1);
        assert(x.text() == y.text());
        assert(property_token(a.last().0@, x) == property_token(b.last().0@, y));
        assert(dispatch_fragment(a.last().0@, x) == dispatch_fragment(b.last().0@, y));
        assert((x == Scalar::Bool(true)) == (y == Scalar::Bool(true)));
    }
}

/// The match clause of a record, with the title and the class it names.
pub fn process_match(ms: &Vec<(String, Scalar)>, named: bool) -> (r: (
    String,
    Option<String>,
    Option<String>,
))
    ensures
        r.0@ == clause(ms@, named),
        opt_view(r.1) == lookup(ms@, "title"@),
        opt_view(r.2) == lookup(ms@, "class"@),
{
    let mut title: Option<String> = None;
    let mut class: Option<String> = None;
    let mut tokens: Vec<String> = Vec::new();
    let mut i: usize = 0;
    while i < ms.len()
        invariant
            i <= ms@.len(),
            views(tokens@) == match_tokens(ms@.subrange(0, i as int), named),
            opt_view(title) == lookup(ms@.subrange(0, i as int), "title"@),
            opt_view(class) == lookup(ms@.subrange(0, i as int), "class"@),
        decreases ms.len() - i,
    {
        let field = ms[i].0.as_str();
        let value = scalar_text(&ms[i].1);
        if str_eq(field, "class") {
            class = Some(value.clone());
        }
        if str_eq(field, "title") {
            title = Some(value.clone());
        }
        if !str_eq(field, "follow-title") && !str_eq(field, "follow") {
            let sep = if named {
                " = "
            } else {
                ":"
            };
            let head = concat(field, sep);
            tokens.push(concat(head.as_str(), value.as_str()));
        }
        proof {
            assert(ms@.subrange(0, i + 1).drop_last() =~= ms@.subrange(0, i as int));
            assert(ms@.subrange(0, i + 1).last() == ms@[i as int]);
        }
        i = i + 1;
        assert(views(tokens@) =~= match_tokens(ms@.subrange(0, i as int), named));
    }
    assert(ms@.subrange(0, i as int) =~= ms@);
    let joiner = if named {
        "\n"
    } else {
        ","
    };
    (join_with(&tokens, joiner), title, class)
}


/// The dispatch fragment of one property, if it has one.
fn dispatch_fragment_of(field: &str, v: &Scalar) -> (r: Option<String>)
    ensures
        opt_view(r) == dispatch_fragment(field@, *v),
{
    let kind = StaticRules::from_str(field);
    match StaticRules::command_from_str(field) {
        None => None,
        Some(verb) => {
            if matches!(kind, StaticRules::Move | StaticRules::Size | StaticRules::Workspace) {
                let param = match v {
                    Scalar::Str(s) => s.clone(),
                    Scalar::Int(i) => int_to_text(*i),
                    _ => {
                        return None;
                    },
                };
                let head = concat(verb.as_str(), " ");
                let body = concat(head.as_str(), param.as_str());
                Some(concat(body.as_str(), ","))
            } else if matches!(v, Scalar::Other) {
                None
            } else {
                Some(concat(verb.as_str(), " "))
            }
        },
    }
}

/// The property tokens of a record and, for the fields in the closed set, their
/// dispatch fragments.
pub fn process_properties(ps: &Vec<(String, Scalar)>) -> (r: (Vec<String>, Vec<String>))
    ensures
        views(r.0@) == property_tokens(ps@),
        views(r.1@) == dispatch_fragments(ps@),
{
    let mut all_props: Vec<String> = Vec::new();
    let mut static_props: Vec<String> = Vec::new();
    let mut i: usize = 0;
    while i < ps.len()
        invariant
            i <= ps@.len(),
            views(all_props@) == property_tokens(ps@.subrange(0, i as int)),
            views(static_props@) == dispatch_fragments(ps@.subrange(0, i as int)),
        decreases ps.len() - i,
    {
        let field = ps[i].0.as_str();
        let value = &ps[i].1;
        if let Some(t) = format_property(field, value) {
            all_props.push(t);
        }
        if let Some(f) = dispatch_fragment_of(field, value) {
            static_props.push(f);
        }
        proof {
            assert(ps@.subrange(0, i + 1).drop_last() =~= ps@.subrange(0, i as int));
            assert(ps@.subrange(0, i + 1).last() == ps@[i as int]);
        }
        i = i + 1;
        assert(views(all_props@) =~= property_tokens(ps@.subrange(0, i as int)));
        assert(views(static_props@) =~= dispatch_fragments(ps@.subrange(0, i as int)));
    }
    assert(ps@.subrange(0, i as int) =~= ps@);
    (all_props, static_props)
}

/// A rule kept alive at runtime: the window it follows and the fragments to
/// dispatch when that window gains focus.
#[derive(Debug)]
pub struct StaticRule {
    pub title: String,
    pub class: String,
    pub properties: Vec<String>,
}

/// The text of a window address as a dispatch command names it.
pub open spec fn address_text(address: isize) -> Seq<char> {
    "address:0x"@ + numeral((address as usize) as nat, 16)
}

/// The commands a runtime rule dispatches for a focused window: none unless
/// title and class both match, else each fragment completed by the address.
pub open spec fn applied(rule: StaticRule, window: Window) -> Seq<Seq<char>> {
    if rule.title@ == window.title@ && rule.class@ == window.class@ {
        views(rule.properties@).map_values(|p: Seq<char>| p + address_text(window.address))
    } else {
        Seq::empty()
    }
}

impl StaticRule {
    /// The commands to dispatch for the focused window.
    pub fn apply_properties(&self, window: &Window) -> (r: Vec<String>)
        ensures
            views(r@) == applied(*self, *window),
    {
        let mut r: Vec<String> = Vec::new();
        if self.title == window.title && self.class == window.class {
            let addr: usize = #[verifier::truncate] (window.address as usize);
            let hex = numeral_text(addr as u64, 16);
            let suffix = concat("address:0x", hex.as_str());
            let mut i: usize = 0;
            while i < self.properties.len()
                invariant
                    i <= self.properties@.len(),
                    suffix@ == address_text(window.address),
                    r@.len() == i,
                    forall|j: int| 0 <= j < i ==> #[trigger] r@[j]@ == self.properties@[j]@ + suffix@,
                decreases self.properties.len() - i,
            {
                r.push(concat(self.properties[i].as_str(), suffix.as_str()));
                i = i + 1;
            }
            assert(views(r@) =~= views(self.properties@).map_values(
                |p: Seq<char>| p + address_text(window.address),
            ));
        } else {
            assert(views(r@) =~= Seq::<Seq<char>>::empty());
        }
        r
    }
}


/// One compiled rule: its name, match clause and property tokens, and the
/// runtime rule it carries when its match follows a window.
#[derive(Debug)]
pub struct Rule {
    pub name: Option<String>,
    pub match_rules: String,
    pub properties: Vec<String>,
    pub static_properties: Option<StaticRule>,
}

/// A match that follows a window without naming both its title and its class.
pub open spec fn lacks_identity(ms: Seq<(String, Scalar)>) -> bool {
    follows(ms) && (lookup(ms, "title"@) is None || lookup(ms, "class"@) is None)
}

/// A named rule's property line: indented, with its first space spelled ` = `.
pub open spec fn block_property(p: Seq<char>) -> Seq<char> {
    "  "@ + replace_first(p, " "@, " = "@)
}

/// The block a named rule renders as.
pub open spec fn named_block(name: Seq<char>, clause: Seq<char>, props: Seq<Seq<char>>) -> Seq<
    char,
> {
    "windowrule {\n  name = "@ + name + "\n  "@ + indent(clause, "  "@) + "\n\n"@ + join(
        props.map_values(|p: Seq<char>| block_property(p)),
        "\n"@,
    ) + "\n}"@
}

/// The line an anonymous rule renders for one property.
pub open spec fn inline_line(clause: Seq<char>, p: Seq<char>) -> Seq<char> {
    "windowrule = "@ + p + ", "@ + clause
}

/// The lines a rule renders as: one block when named, else one line per property.
pub open spec fn rule_lines(name: Option<Seq<char>>, clause: Seq<char>, props: Seq<Seq<char>>) -> Seq<
    Seq<char>,
> {
    match name {
        Some(n) => seq![named_block(n, clause, props)],
        None => props.map_values(|p: Seq<char>| inline_line(clause, p)),
    }
}

impl Rule {
    /// Compiles a match record and a properties record; a name selects the
    /// block rendering. Fails when the match follows a window but does not
    /// name both its title and its class.
    pub fn new(
        name: Option<String>,
        match_rules: &Vec<(String, Scalar)>,
        properties: &Vec<(String, Scalar)>,
    ) -> (r: Result<Rule, LoadError>)
        ensures
            r is Err <==> lacks_identity(match_rules@),
            match r {
                Err(e) => e is MissingTitleOrClass,
                Ok(rule) => {
                    &&& opt_view(rule.name) == opt_view(name)
                    &&& rule.match_rules@ == clause(match_rules@, name is Some)
                    &&& views(rule.properties@) == property_tokens(properties@)
                    &&& (rule.static_properties is Some <==> follows(match_rules@))
                    &&& (rule.static_properties matches Some(sr) ==> {
                        &&& lookup(match_rules@, "title"@) == Some(sr.title@)
                        &&& lookup(match_rules@, "class"@) == Some(sr.class@)
                        &&& views(sr.properties@) == dispatch_fragments(properties@)
                    })
                },
            },
    {
        let follow = follow_flag(match_rules);
        let named = name.is_some();
        let (clause_text, title, class) = process_match(match_rules, named);
        let (props, static_props) = process_properties(properties);
        let static_properties = if follow {
            match (title, class) {
                (Some(t), Some(c)) => Some(StaticRule { title: t, class: c, properties: static_props }),
                _ => {
                    return Err(LoadError::MissingTitleOrClass);
                },
            }
        } else {
            None
        };
        Ok(Rule { name, match_rules: clause_text, properties: props, static_properties })
    }

    /// The rule-language text of the rule.
    pub fn compile(&self) -> (r: Vec<String>)
        ensures
            views(r@) == rule_lines(opt_view(self.name), self.match_rules@, views(self.properties@)),
    {
        let mut r: Vec<String> = Vec::new();
        match &self.name {
            Some(name) => {
                let mut lines: Vec<String> = Vec::new();
                let mut i: usize = 0;
                while i < self.properties.len()
                    invariant
                        i <= self.properties@.len(),
                        lines@.len() == i,
                        forall|j: int|
                            0 <= j < i ==> #[trigger] lines@[j]@ == block_property(
                                self.properties@[j]@,
                            ),
                    decreases self.properties.len() - i,
                {
                    let p = replace_first_text(self.properties[i].as_str(), " ", " = ");
                    lines.push(concat("  ", p.as_str()));
                    i = i + 1;
                }
                assert(views(lines@) =~= views(self.properties@).map_values(
                    |p: Seq<char>| block_property(p),
                ));
                let body = join_with(&lines, "\n");
                let clause_text = indent_lines(self.match_rules.as_str(), "  ");
                let mut block = concat("windowrule {\n  name = ", name.as_str());
                block.append("\n  ");
                block.append(clause_text.as_str());
                block.append("\n\n");
                block.append(body.as_str());
                block.append("\n}");
                r.push(block);
                assert(views(r@) =~= seq![block@]);
            },
            None => {
                let mut i: usize = 0;
                while i < self.properties.len()
                    invariant
                        i <= self.properties@.len(),
                        r@.len() == i,
                        forall|j: int|
                            0 <= j < i ==> #[trigger] r@[j]@ == inline_line(
                                self.match_rules@,
                                self.properties@[j]@,
                            ),
                    decreases self.properties.len() - i,
                {
                    let mut line = concat("windowrule = ", self.properties[i].as_str());
                    line.append(", ");
                    line.append(self.match_rules.as_str());
                    r.push(line);
                    i = i + 1;
                }
                assert(views(r@) =~= views(self.properties@).map_values(
                    |p: Seq<char>| inline_line(self.match_rules@, p),
                ));
            },
        }
        r
    }
}

/// The match record sets its follow flag.
fn follow_flag(ms: &Vec<(String, Scalar)>) -> (r: bool)
    ensures
        r == follows(ms@),
{
    let mut found = false;
    let mut i: usize = 0;
    while i < ms.len()
        invariant
            i <= ms@.len(),
            found == follows(ms@.subrange(0, i as int)),
        decreases ms.len() - i,
    {
        let field = ms[i].0.as_str();
        if str_eq(field, "follow-title") || str_eq(field, "follow") {
            if let Scalar::Bool(true) = ms[i].1 {
                found = true;
            }
        }
        proof {
            assert(ms@.subrange(0, i + 1).drop_last() =~= ms@.subrange(0, i as int));
            assert(ms@.subrange(0, i + 1).last() == ms@[i as int]);
        }
        i = i + 1;
    }
    assert(ms@.subrange(0, i as int) =~= ms@);
    found
}

} // verus!
