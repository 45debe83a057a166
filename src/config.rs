//! Compiling a whole rule file.
use vstd::prelude::*;
use crate::rules::{
    clause, dispatch_fragments, follows, lacks_identity, lemma_same_entries, lookup, opt_view,
    property_tokens, rule_lines, same_entries, Rule, StaticRule,
};
use crate::text::views;
use vstd::string::to_string_from_display_ensures;
use crate::value::Scalar;
use crate::yaml::{entries_of, field, load_yaml, node_field, scalar_entries, yaml_docs, Node};
use yaml_rust::ScanError;

verus! {

/// Why a rule file could not be compiled.
#[derive(Debug)]
pub enum LoadError {
    /// The file could not be read.
    Io(String),
    /// The file is not well-formed YAML.
    Yaml(String),
    /// The root of the document is not a list of rule blocks.
    InvalidConfig,
    /// A rule follows a window but its match lacks the title or the class.
    MissingTitleOrClass,
}

/// An error of the standard library's I/O; opaque here.
#[verifier::external_type_specification]
#[verifier::external_body]
pub struct ExIoError(std::io::Error);

impl LoadError {
    /// The error for a file that could not be read, with the I/O error's message.
    pub fn from_io(e: std::io::Error) -> (r: Self)
        ensures
            match r {
                LoadError::Io(m) => to_string_from_display_ensures::<std::io::Error>(&e, m),
                _ => false,
            },
    {
        LoadError::Io(e.to_string())
    }

    /// The error for text that is not well-formed YAML, with the parser's message.
    pub fn from_yaml(e: ScanError) -> (r: Self)
        ensures
            match r {
                LoadError::Yaml(m) => to_string_from_display_ensures::<ScanError>(&e, m),
                _ => false,
            },
    {
        LoadError::Yaml(e.to_string())
    }
}


/// One block of the rule file: an optional name, one or more match records and
/// the properties they share.
#[derive(Debug)]
pub struct RuleBlock {
    pub name: Option<String>,
    pub matches: Vec<Vec<(String, Scalar)>>,
    pub properties: Vec<(String, Scalar)>,
}

/// One rule to compile: a name, a match record and a properties record.
pub type RuleSource = (Option<Seq<char>>, Seq<(String, Scalar)>, Seq<(String, Scalar)>);

/// The rules of one block, one per match record.
pub open spec fn expand(b: RuleBlock) -> Seq<RuleSource> {
    b.matches@.map_values(|m: Vec<(String, Scalar)>| (opt_view(b.name), m@, b.properties@))
}

/// The rules of a rule file, in order.
pub open spec fn flat(blocks: Seq<RuleBlock>) -> Seq<RuleSource>
    decreases blocks.len(),
{
    if blocks.len() == 0 {
        Seq::empty()
    } else {
        flat(blocks.drop_last()) + expand(blocks.last())
    }
}

/// The rules of the first `k` blocks come first among the rules of all blocks.
proof fn lemma_flat_prefix(s: Seq<RuleBlock>, k: int)
    requires
        0 <= k <= s.len(),
    ensures
        flat(s.subrange(0, k)).len() <= flat(s).len(),
        forall|m: int|
            0 <= m < flat(s.subrange(0, k)).len() ==> flat(s.subrange(0, k))[m] == flat(s)[m],
    decreases s.len(),
{
    if k == s.len() {
        assert(s.subrange(0, k) =~= s);
    } else {
        assert(s.drop_last().subrange(0, k) =~= s.subrange(0, k));
        lemma_flat_prefix(s.drop_last(), k);
    }
}

/// The lines a rule prints: none for a rule that follows a window, whose
/// properties are applied at runtime instead.
pub open spec fn printed(x: RuleSource) -> Seq<Seq<char>> {
    if follows(x.1) {
        Seq::empty()
    } else {
        rule_lines(x.0, clause(x.1, x.0 is Some), property_tokens(x.2))
    }
}

/// The printed output of a sequence of rules.
pub open spec fn output(xs: Seq<RuleSource>) -> Seq<Seq<char>>
    decreases xs.len(),
{
    if xs.len() == 0 {
        Seq::empty()
    } else {
        output(xs.drop_last()) + printed(xs.last())
    }
}

/// A runtime rule as title, class and dispatch fragments.
pub open spec fn runtime_view(r: StaticRule) -> (Seq<char>, Seq<char>, Seq<Seq<char>>) {
    (r.title@, r.class@, views(r.properties@))
}

/// The runtime rules of a sequence of rules: one for each rule that follows a window.
pub open spec fn runtime(xs: Seq<RuleSource>) -> Seq<(Seq<char>, Seq<char>, Seq<Seq<char>>)>
    decreases xs.len(),
{
    if xs.len() == 0 {
        Seq::empty()
    } else if follows(xs.last().1) {
        runtime(xs.drop_last()).push(
            (
                lookup(xs.last().1, "title"@).unwrap(),
                lookup(xs.last().1, "class"@).unwrap(),
                dispatch_fragments(xs.last().2),
            ),
        )
    } else {
        runtime(xs.drop_last())
    }
}

/// Some rule follows a window without naming both its title and its class.
pub open spec fn any_lacks_identity(xs: Seq<RuleSource>) -> bool {
    exists|k: int| 0 <= k < xs.len() && lacks_identity(#[trigger] xs[k].1)
}

fn copy_name(o: &Option<String>) -> (r: Option<String>)
    ensures
        opt_view(r) == opt_view(*o),
{
    match o {
        Some(s) => Some(s.clone()),
        None => None,
    }
}

/// Compiles the blocks of a rule file: the printed lines of the rules that do
/// not follow a window, and the runtime rules of those that do.
pub fn compile_blocks(blocks: &Vec<RuleBlock>) -> (r: Result<(Vec<String>, Vec<StaticRule>), LoadError>)
    ensures
        r is Err <==> any_lacks_identity(flat(blocks@)),
        match r {
            Err(e) => e is MissingTitleOrClass,
            Ok((lines, rules)) => {
                &&& views(lines@) == output(flat(blocks@))
                &&& rules@.map_values(|x: StaticRule| runtime_view(x)) == runtime(flat(blocks@))
            },
        },
{
    let mut lines: Vec<String> = Vec::new();
    let mut rules: Vec<StaticRule> = Vec::new();
    let mut i: usize = 0;
    while i < blocks.len()
        invariant
            i <= blocks@.len(),
            !any_lacks_identity(flat(blocks@.subrange(0, i as int))),
            views(lines@) == output(flat(blocks@.subrange(0, i as int))),
            rules@.map_values(|x: StaticRule| runtime_view(x)) == runtime(
                flat(blocks@.subrange(0, i as int)),
            ),
        decreases blocks.len() - i,
    {
        let block = &blocks[i];
        let ghost done = flat(blocks@.subrange(0, i as int));
        let ghost here = expand(blocks@[i as int]);
        let mut j: usize = 0;
        while j < block.matches.len()
            invariant
                i < blocks@.len(),
                *block == blocks@[i as int],
                done == flat(blocks@.subrange(0, i as int)),
                here == expand(blocks@[i as int]),
                j <= block.matches@.len(),
                !any_lacks_identity(done + here.subrange(0, j as int)),
                views(lines@) == output(done + here.subrange(0, j as int)),
                rules@.map_values(|x: StaticRule| runtime_view(x)) == runtime(
                    done + here.subrange(0, j as int),
                ),
            decreases block.matches.len() - j,
        {
            let ghost before = done + here.subrange(0, j as int);
            let ghost x = here[j as int];
            assert(done + here.subrange(0, j + 1) =~= before.push(x));
            assert(before.push(x).drop_last() =~= before);
            let name = copy_name(&block.name);
            match Rule::new(name, &block.matches[j], &block.properties) {
                Err(e) => {
                    proof {
                        let s = blocks@.subrange(0, i + 1);
                        assert(s.drop_last() =~= blocks@.subrange(0, i as int));
                        assert(s.last() == blocks@[i as int]);
                        assert(flat(s) == done + here);
                        lemma_flat_prefix(blocks@, i + 1);
                        assert(flat(s)[before.len() as int] == x);
                        assert(lacks_identity(flat(blocks@)[before.len() as int].1));
                    }
                    return Err(e);
                },
                Ok(rule) => {
                    let ghost old_lines = lines@;
                    let ghost old_rules = rules@;
                    match rule.static_properties {
                        Some(sr) => {
                            rules.push(sr);
                            assert(rules@.map_values(|x: StaticRule| runtime_view(x)) =~= old_rules.map_values(
                                |x: StaticRule| runtime_view(x),
                            ).push(runtime_view(sr)));
                        },
                        None => {
                            let mut compiled = rule.compile();
                            let ghost c = compiled@;
                            lines.append(&mut compiled);
                            assert(views(lines@) =~= views(old_lines) + views(c));
                        },
                    }
                },
            }
            j = j + 1;
        }
        proof {
            assert(here.subrange(0, j as int) =~= here);
            let s = blocks@.subrange(0, i + 1);
            assert(s.drop_last() =~= blocks@.subrange(0, i as int));
            assert(s.last() == blocks@[i as int]);
        }
        i = i + 1;
    }
    assert(blocks@.subrange(0, i as int) =~= blocks@);
    Ok((lines, rules))
}


/// Two lists of rules that read the same, rule by rule.
pub open spec fn same_sources(a: Seq<RuleSource>, b: Seq<RuleSource>) -> bool {
    &&& a.len() == b.len()
    &&& forall|i: int|
        0 <= i < a.len() ==> {
            &&& #[trigger] a[i].0 == b[i].0
            &&& same_entries(a[i].1, b[i].1)
            &&& same_entries(a[i].2, b[i].2)
        }
}

/// Two lists of blocks that read the same, block by block.
pub open spec fn same_blocks(a: Seq<RuleBlock>, b: Seq<RuleBlock>) -> bool {
    &&& a.len() == b.len()
    &&& forall|i: int|
        0 <= i < a.len() ==> {
            &&& opt_view(#[trigger] a[i].name) == opt_view(b[i].name)
            &&& same_entries(a[i].properties@, b[i].properties@)
            &&& a[i].matches@.len() == b[i].matches@.len()
            &&& forall|j: int|
                0 <= j < a[i].matches@.len() ==> same_entries(
                    #[trigger] a[i].matches@[j]@,
                    b[i].matches@[j]@,
                )
        }
}

proof fn lemma_flat_same(a: Seq<RuleBlock>, b: Seq<RuleBlock>)
    requires
        same_blocks(a, b),
    ensures
        same_sources(flat(a), flat(b)),
    decreases a.len(),
{
    if a.len() > 0 {
        let n = a.len() - 1;
        assert(opt_view(a[n].name) == opt_view(b[n].name));
        assert(same_blocks(a.drop_last(), b.drop_last())) by {
            assert forall|i: int| 0 <= i < a.drop_last().len() implies opt_view(
                #[trigger] a.drop_last()[i].name,
            ) == opt_view(b.drop_last()[i].name) by {
                assert(opt_view(a[i].name) == opt_view(b[i].name));
            }
        }
        lemma_flat_same(a.drop_last(), b.drop_last());
        let (fa, fb) = (flat(a.drop_last()), flat(b.drop_last()));
        assert forall|i: int| 0 <= i < flat(a).len() implies {
            &&& #[trigger] flat(a)[i].0 == flat(b)[i].0
            &&& same_entries(flat(a)[i].1, flat(b)[i].1)
            &&& same_entries(flat(a)[i].2, flat(b)[i].2)
        } by {
            if i < fa.len() {
                assert(fa[i].0 == fb[i].0);
            } else {
                let j = i - fa.len();
                assert(same_entries(a[n].matches@[j]@, b[n].matches@[j]@));
            }
        }
    }
}

proof fn lemma_output_same(a: Seq<RuleSource>, b: Seq<RuleSource>)
    requires
        same_sources(a, b),
    ensures
        output(a) == output(b),
        runtime(a) == runtime(b),
        any_lacks_identity(a) == any_lacks_identity(b),
    decreases a.len(),
{
    if a.len() > 0 {
        let n = a.len() - 1;
        assert(a[n].0 == b[n].0);
        assert(same_sources(a.drop_last(), b.drop_last())) by {
            assert forall|i: int| 0 <= i < a.drop_last().len() implies #[trigger] a.drop_last()[i].0
                == b.drop_last()[i].0 by {
                assert(a[i].0 == b[i].0);
            }
        }
        lemma_output_same(a.drop_last(), b.drop_last());
        lemma_same_entries(a[n].1, b[n].1, a[n].0 is Some);
        lemma_same_entries(a[n].2, b[n].2, a[n].0 is Some);
    }
    assert forall|k: int| 0 <= k < a.len() implies lacks_identity(#[trigger] a[k].1) == lacks_identity(
        b[k].1,
    ) by {
        assert(a[k].0 == b[k].0);
        lemma_same_entries(a[k].1, b[k].1, false);
    }
    if any_lacks_identity(b) {
        let k = choose|k: int| 0 <= k < b.len() && lacks_identity(#[trigger] b[k].1);
        assert(lacks_identity(a[k].1));
    }
}

/// Compiling is repeatable: two lists of blocks that read the same fail
/// alike or print the same lines and keep the same runtime rules.
pub proof fn lemma_compile_repeatable(a: Seq<RuleBlock>, b: Seq<RuleBlock>)
    requires
        same_blocks(a, b),
    ensures
        any_lacks_identity(flat(a)) == any_lacks_identity(flat(b)),
        output(flat(a)) == output(flat(b)),
        runtime(flat(a)) == runtime(flat(b)),
{
    lemma_flat_same(a, b);
    lemma_output_same(flat(a), flat(b));
}

/// The name of a rule block: its `name` string, if any.
pub open spec fn block_name(item: Node) -> Option<Seq<char>> {
    match field(item, "name"@) {
        Some(Node::Str(n)) => Some(n@),
        _ => None,
    }
}

/// The properties of a rule block: the scalar entries of its `properties`
/// mapping; none when it has no such mapping.
pub open spec fn block_props(item: Node) -> Seq<(String, Scalar)> {
    match field(item, "properties"@) {
        Some(n) => match entries_of(n) {
            Some(e) => e,
            None => Seq::empty(),
        },
        None => Seq::empty(),
    }
}

/// The match records among a list's items: each mapping, in order.
pub open spec fn maps_in(ms: Seq<Node>) -> Seq<Seq<(String, Scalar)>>
    decreases ms.len(),
{
    if ms.len() == 0 {
        Seq::empty()
    } else {
        match entries_of(ms.last()) {
            Some(e) => maps_in(ms.drop_last()).push(e),
            None => maps_in(ms.drop_last()),
        }
    }
}

/// The match records of a block's `match`: one mapping, or each mapping of a list.
pub open spec fn match_maps(m: Option<Node>) -> Seq<Seq<(String, Scalar)>> {
    match m {
        Some(Node::List(ms)) => maps_in(ms@),
        Some(n) => match entries_of(n) {
            Some(e) => seq![e],
            None => Seq::empty(),
        },
        None => Seq::empty(),
    }
}

/// The rules of a rule block, one per match record.
pub open spec fn block_sources(item: Node) -> Seq<RuleSource> {
    match_maps(field(item, "match"@)).map_values(
        |e: Seq<(String, Scalar)>| (block_name(item), e, block_props(item)),
    )
}

/// The rules of a list of rule blocks, in order.
pub open spec fn items_sources(items: Seq<Node>) -> Seq<RuleSource>
    decreases items.len(),
{
    if items.len() == 0 {
        Seq::empty()
    } else {
        items_sources(items.drop_last()) + block_sources(items.last())
    }
}

/// The rules a document's root describes; none unless the root is a list.
pub open spec fn sources_of(doc: Node) -> Seq<RuleSource> {
    match doc {
        Node::List(items) => items_sources(items@),
        _ => Seq::empty(),
    }
}

/// The block one item of the document's root list describes.
pub fn read_block(item: &Node) -> (b: RuleBlock)
    ensures
        expand(b) == block_sources(*item),
{
    let name = match node_field(item, "name") {
        Some(Node::Str(n)) => Some(n.clone()),
        _ => None,
    };
    let properties = match node_field(item, "properties") {
        Some(n) => match scalar_entries(n) {
            Some(e) => e,
            None => Vec::new(),
        },
        None => Vec::new(),
    };
    let mut matches: Vec<Vec<(String, Scalar)>> = Vec::new();
    match node_field(item, "match") {
        Some(Node::List(ms)) => {
            let mut j: usize = 0;
            while j < ms.len()
                invariant
                    j <= ms@.len(),
                    matches@.map_values(|m: Vec<(String, Scalar)>| m@) == maps_in(
                        ms@.subrange(0, j as int),
                    ),
                decreases ms.len() - j,
            {
                let ghost before = matches@;
                if let Some(e) = scalar_entries(&ms[j]) {
                    matches.push(e);
                }
                proof {
                    let s = ms@.subrange(0, j + 1);
                    assert(s.drop_last() =~= ms@.subrange(0, j as int));
                    assert(s.last() == ms@[j as int]);
                }
                j = j + 1;
                assert(matches@.map_values(|m: Vec<(String, Scalar)>| m@) =~= maps_in(
                    ms@.subrange(0, j as int),
                ));
            }
            assert(ms@.subrange(0, j as int) =~= ms@);
        },
        Some(n) => {
            if let Some(e) = scalar_entries(n) {
                matches.push(e);
            }
            assert(matches@.map_values(|m: Vec<(String, Scalar)>| m@) =~= match_maps(
                field(*item, "match"@),
            ));
        },
        None => {
            assert(matches@.map_values(|m: Vec<(String, Scalar)>| m@) =~= match_maps(
                field(*item, "match"@),
            ));
        },
    }
    let b = RuleBlock { name, matches, properties };
    assert(expand(b) =~= block_sources(*item));
    b
}

/// The blocks of a parsed document, whose root must be a list.
pub fn read_blocks(doc: &Node) -> (r: Result<Vec<RuleBlock>, LoadError>)
    ensures
        r is Err <==> !(*doc is List),
        r matches Err(e) ==> e is InvalidConfig,
        r matches Ok(bs) ==> flat(bs@) == sources_of(*doc),
{
    let items = match doc {
        Node::List(items) => items,
        _ => {
            return Err(LoadError::InvalidConfig);
        },
    };
    let mut blocks: Vec<RuleBlock> = Vec::new();
    let mut i: usize = 0;
    while i < items.len()
        invariant
            i <= items@.len(),
            flat(blocks@) == items_sources(items@.subrange(0, i as int)),
        decreases items.len() - i,
    {
        let b = read_block(&items[i]);
        let ghost before = blocks@;
        blocks.push(b);
        proof {
            assert(blocks@.drop_last() =~= before);
            let s = items@.subrange(0, i + 1);
            assert(s.drop_last() =~= items@.subrange(0, i as int));
            assert(s.last() == items@[i as int]);
        }
        i = i + 1;
    }
    assert(items@.subrange(0, i as int) =~= items@);
    Ok(blocks)
}

/// What compiling a rule file's text gives: its printed lines and runtime
/// rules, or `None` when it fails.
pub open spec fn config_result(text: Seq<char>) -> Option<
    (Seq<Seq<char>>, Seq<(Seq<char>, Seq<char>, Seq<Seq<char>>)>),
> {
    match yaml_docs(text) {
        Some(d) => if d.len() > 0 && d[0] is List && !any_lacks_identity(sources_of(d[0])) {
            Some((output(sources_of(d[0])), runtime(sources_of(d[0]))))
        } else {
            None
        },
        None => None,
    }
}

/// Compiling is repeatable: two compilations of one text fail alike or give
/// byte-identical lines and the same runtime rules.
pub proof fn lemma_config_repeatable(first: Seq<char>, second: Seq<char>)
    requires
        first == second,
    ensures
        config_result(first) == config_result(second),
{
}

/// Compiles the text of a rule file: the printed lines and the runtime rules.
/// Text that is not YAML gives `Yaml`; a document whose root is missing or not
/// a list gives `InvalidConfig`; otherwise the rules its blocks describe are
/// compiled as `compile_blocks` does.
pub fn compile_config(text: &str) -> (r: Result<(Vec<String>, Vec<StaticRule>), LoadError>)
    ensures
        match r {
            Ok((lines, rules)) => config_result(text@) == Some(
                (views(lines@), rules@.map_values(|x: StaticRule| runtime_view(x))),
            ),
            Err(_) => config_result(text@) is None,
        },
        match yaml_docs(text@) {
            None => r matches Err(LoadError::Yaml(_)),
            Some(d) => if d.len() == 0 || !(d[0] is List) {
                r matches Err(LoadError::InvalidConfig)
            } else {
                &&& r is Err <==> any_lacks_identity(sources_of(d[0]))
                &&& match r {
                    Ok((lines, rules)) => {
                        &&& views(lines@) == output(sources_of(d[0]))
                        &&& rules@.map_values(|x: StaticRule| runtime_view(x)) == runtime(
                            sources_of(d[0]),
                        )
                    },
                    Err(e) => e is MissingTitleOrClass,
                }
            },
        },
{
    let docs = match load_yaml(text) {
        Ok(docs) => docs,
        Err(e) => {
            return Err(LoadError::from_yaml(e));
        },
    };
    if docs.len() == 0 {
        return Err(LoadError::InvalidConfig);
    }
    let blocks = match read_blocks(&docs[0]) {
        Ok(bs) => bs,
        Err(e) => {
            return Err(e);
        },
    };
    compile_blocks(&blocks)
}

} // verus!
