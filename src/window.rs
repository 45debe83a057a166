//! The identity of the focused window, as the control socket reports it.
use vstd::prelude::*;
use crate::text::{chars_of, find, find_in, join_with, str_eq, text_of};
use crate::text::{join, views};
use crate::yaml::{field, load_yaml, node_field, yaml_docs, Node};

verus! {

/// A snapshot of a window: its address handle, class and title.
#[derive(Debug)]
pub struct Window {
    pub address: isize,
    pub class: String,
    pub title: String,
}

/// The value of a hexadecimal digit, either case.
pub open spec fn hex_digit(c: char) -> Option<nat> {
    if '0' <= c && c <= '9' {
        Some((c as nat - '0' as nat) as nat)
    } else if 'a' <= c && c <= 'f' {
        Some((c as nat - 'a' as nat + 10) as nat)
    } else if 'A' <= c && c <= 'F' {
        Some((c as nat - 'A' as nat + 10) as nat)
    } else {
        None
    }
}

/// The value of a run of hexadecimal digits, if every character is one.
pub open spec fn hex_value(s: Seq<char>) -> Option<nat>
    decreases s.len(),
{
    if s.len() == 0 {
        Some(0)
    } else {
        match (hex_value(s.drop_last()), hex_digit(s.last())) {
            (Some(v), Some(d)) => Some(v * 16 + d),
            _ => None,
        }
    }
}

/// The address a non-empty run of hexadecimal digits spells, if it fits an `isize`.
pub open spec fn parse_hex(s: Seq<char>) -> Option<int> {
    match hex_value(s) {
        Some(v) => if s.len() > 0 && v <= isize::MAX {
            Some(v as int)
        } else {
            None
        },
        None => None,
    }
}

/// The first line of a response.
pub open spec fn first_line(s: Seq<char>) -> Seq<char> {
    match find(s, "\n"@) {
        Some(i) => s.subrange(0, i),
        None => s,
    }
}

/// The address on the first line of a window report: the hexadecimal digits
/// between `Window ` and ` ->`.
pub open spec fn address_of(response: Seq<char>) -> Option<int> {
    let line = first_line(response);
    match (find(line, "Window "@), find(line, " ->"@)) {
        (Some(a), Some(b)) => if a + 7 <= b {
            parse_hex(line.subrange(a + 7, b))
        } else {
            None
        },
        _ => None,
    }
}

fn hex_digit_of(c: char) -> (r: Option<u64>)
    ensures
        match r {
            Some(d) => hex_digit(c) == Some(d as nat) && d < 16,
            None => hex_digit(c) is None,
        },
{
    if '0' <= c && c <= '9' {
        Some((c as u32 - '0' as u32) as u64)
    } else if 'a' <= c && c <= 'f' {
        Some((c as u32 - 'a' as u32 + 10) as u64)
    } else if 'A' <= c && c <= 'F' {
        Some((c as u32 - 'A' as u32 + 10) as u64)
    } else {
        None
    }
}

/// The address that `v[from..to]` spells in hexadecimal.
pub fn parse_hex_span(v: &Vec<char>, from: usize, to: usize) -> (r: Option<isize>)
    requires
        from <= to <= v@.len(),
    ensures
        match r {
            Some(a) => parse_hex(v@.subrange(from as int, to as int)) == Some(a as int),
            None => parse_hex(v@.subrange(from as int, to as int)) is None,
        },
{
    if from == to {
        return None;
    }
    let max: u64 = isize::MAX as u64;
    let mut acc: u64 = 0;
    let mut i: usize = from;
    while i < to
        invariant
            from <= i <= to <= v@.len(),
            max == isize::MAX,
            acc <= max,
            hex_value(v@.subrange(from as int, i as int)) == Some(acc as nat),
        decreases to - i,
    {
        let ghost s = v@.subrange(from as int, i + 1);
        assert(s.drop_last() =~= v@.subrange(from as int, i as int));
        assert(s.last() == v@[i as int]);
        let d = match hex_digit_of(v[i]) {
            Some(d) => d,
            None => {
                proof {
                    lemma_hex_value_extends(v@.subrange(from as int, to as int), (i + 1 - from) as int);
                    assert(v@.subrange(from as int, to as int).subrange(0, i + 1 - from) =~= s);
                }
                return None;
            },
        };
        if acc > (max - d) / 16 {
            proof {
                assert(acc * 16 + d > max) by (nonlinear_arith)
                    requires
                        acc > (max - d) / 16,
                        d < 16,
                        d <= max,
                ;
                let full = v@.subrange(from as int, to as int);
                assert(full.subrange(0, i + 1 - from) =~= s);
                assert(hex_value(s) == Some((acc * 16 + d) as nat));
                if hex_value(full) is Some {
                    lemma_hex_value_grows(full, (i + 1 - from) as int);
                }
            }
            return None;
        }
        assert(acc * 16 + d <= max) by (nonlinear_arith)
            requires
                acc <= (max - d) / 16,
                d < 16,
                d <= max,
        ;
        acc = acc * 16 + d;
        i = i + 1;
    }
    Some(acc as isize)
}

/// A prefix of digits that is not all hexadecimal spoils the whole run.
proof fn lemma_hex_value_extends(s: Seq<char>, k: int)
    requires
        0 <= k <= s.len(),
        hex_value(s.subrange(0, k)) is None,
    ensures
        hex_value(s) is None,
    decreases s.len(),
{
    if k < s.len() {
        assert(s.drop_last().subrange(0, k) =~= s.subrange(0, k));
        lemma_hex_value_extends(s.drop_last(), k);
    } else {
        assert(s.subrange(0, k) =~= s);
    }
}

/// The value of a run of digits is at least that of each prefix.
proof fn lemma_hex_value_grows(s: Seq<char>, k: int)
    requires
        0 <= k <= s.len(),
        hex_value(s.subrange(0, k)) is Some,
        hex_value(s) is Some,
    ensures
        hex_value(s.subrange(0, k))->0 <= hex_value(s)->0,
    decreases s.len(),
{
    if k < s.len() {
        assert(s.drop_last().subrange(0, k) =~= s.subrange(0, k));
        lemma_hex_value_grows(s.drop_last(), k);
    } else {
        assert(s.subrange(0, k) =~= s);
    }
}


/// A line without the carriage return that ended it.
pub open spec fn strip_cr(l: Seq<char>) -> Seq<char> {
    if l.len() > 0 && l.last() == '\r' {
        l.drop_last()
    } else {
        l
    }
}

/// The pieces of a text between its newlines; at least one.
pub open spec fn pieces(s: Seq<char>) -> Seq<Seq<char>>
    decreases s.len(),
{
    if s.len() == 0 {
        seq![Seq::empty()]
    } else {
        let p = pieces(s.drop_last());
        if s.last() == '\n' {
            p.push(Seq::empty())
        } else {
            p.update(p.len() - 1, p.last().push(s.last()))
        }
    }
}

proof fn lemma_pieces_nonempty(s: Seq<char>)
    ensures
        pieces(s).len() >= 1,
    decreases s.len(),
{
    if s.len() > 0 {
        lemma_pieces_nonempty(s.drop_last());
    }
}

/// The lines of a text: split at newlines, each line that a newline ends
/// without its carriage return, and no empty line after a final newline.
pub open spec fn lines(s: Seq<char>) -> Seq<Seq<char>> {
    let p = pieces(s);
    let done = p.drop_last().map_values(|l: Seq<char>| strip_cr(l));
    if p.last().len() == 0 {
        done
    } else {
        done.push(p.last())
    }
}

/// The lines of a text.
pub fn split_lines(s: &str) -> (r: Vec<String>)
    ensures
        views(r@) == lines(s@),
{
    let v = chars_of(s);
    let mut done: Vec<String> = Vec::new();
    let mut cur: Vec<char> = Vec::new();
    let mut i: usize = 0;
    while i < v.len()
        invariant
            i <= v@.len(),
            v@ == s@,
            pieces(v@.subrange(0, i as int)).len() >= 1,
            views(done@) == pieces(v@.subrange(0, i as int)).drop_last().map_values(
                |l: Seq<char>| strip_cr(l),
            ),
            cur@ == pieces(v@.subrange(0, i as int)).last(),
        decreases v.len() - i,
    {
        let ghost p = pieces(v@.subrange(0, i as int));
        proof {
            let t = v@.subrange(0, i + 1);
            assert(t.drop_last() =~= v@.subrange(0, i as int));
            assert(t.last() == v@[i as int]);
        }
        let c = v[i];
        if c == '\n' {
            let n = cur.len();
            let line = if n > 0 && cur[n - 1] == '\r' {
                text_of(&cur, 0, n - 1)
            } else {
                text_of(&cur, 0, n)
            };
            assert(line@ == strip_cr(cur@)) by {
                assert(cur@.subrange(0, n as int) =~= cur@);
                if n > 0 {
                    assert(cur@.subrange(0, n - 1) =~= cur@.drop_last());
                }
            }
            let ghost old_done = views(done@);
            done.push(line);
            assert(views(done@) =~= old_done.push(line@));
            assert(p.map_values(|l: Seq<char>| strip_cr(l)) =~= p.drop_last().map_values(
                |l: Seq<char>| strip_cr(l),
            ).push(strip_cr(p.last())));
            cur = Vec::new();
            i = i + 1;
            assert(pieces(v@.subrange(0, i as int)).drop_last() =~= p);
        } else {
            cur.push(c);
            i = i + 1;
            assert(pieces(v@.subrange(0, i as int)).drop_last() =~= p.drop_last());
        }
    }
    assert(v@.subrange(0, i as int) =~= s@);
    if cur.len() > 0 {
        let n = cur.len();
        let line = text_of(&cur, 0, n);
        assert(cur@.subrange(0, n as int) =~= cur@);
        done.push(line);
    }
    proof {
        assert(views(done@) =~= lines(s@));
    }
    done
}

/// What `str::trim_start` leaves of a text.
pub uninterp spec fn trim_start_of(s: Seq<char>) -> Seq<char>;

/// Relies on `str::trim_start`: the text without its leading whitespace, a
/// suffix of it that depends on the text alone.
#[verifier::external_body]
fn trim_start(s: &str) -> (r: String)
    ensures
        r@ == trim_start_of(s@),
        r@.len() <= s@.len(),
        r@ == s@.subrange(s@.len() - r@.len(), s@.len() as int),
{
    s.trim_start().to_string()
}

/// The text after the first line of a response.
pub open spec fn after_first_line(s: Seq<char>) -> Seq<char> {
    match find(s, "\n"@) {
        Some(i) => s.subrange(i + 1, s.len() as int),
        None => Seq::empty(),
    }
}

/// The lines after the first, each without its leading whitespace, joined
/// by newlines: the part of a window report that is read as YAML.
pub open spec fn cleaned(response: Seq<char>) -> Seq<char> {
    join(
        lines(after_first_line(response)).map_values(|l: Seq<char>| trim_start_of(l)),
        "\n"@,
    )
}

/// The string under `key` in the first YAML document of a window report.
pub open spec fn report_field(response: Seq<char>, key: Seq<char>) -> Option<Seq<char>> {
    match yaml_docs(cleaned(response)) {
        Some(d) => if d.len() > 0 {
            match field(d[0], key) {
                Some(Node::Str(t)) => Some(t@),
                _ => None,
            }
        } else {
            None
        },
        None => None,
    }
}

/// The string under `key` in the first document.
fn string_field(docs: &Vec<Node>, key: &str) -> (r: Option<String>)
    ensures
        opt_text(r) == (if docs@.len() > 0 {
            match field(docs@[0], key@) {
                Some(Node::Str(t)) => Some(t@),
                _ => None,
            }
        } else {
            None
        }),
{
    if docs.len() == 0 {
        return None;
    }
    match node_field(&docs[0], key) {
        Some(Node::Str(s)) => Some(s.clone()),
        _ => None,
    }
}

/// The view of an optional string.
pub open spec fn opt_text(o: Option<String>) -> Option<Seq<char>> {
    match o {
        Some(s) => Some(s@),
        None => None,
    }
}

/// Decodes the control socket's answer to `activewindow`. `Invalid` means no
/// window has focus. The address comes from the first line; the title and the
/// class from the remaining lines, read as YAML once their indentation is
/// removed. Any part that cannot be read gives no window.
pub fn parse_active_window(response: &str) -> (r: Option<Window>)
    ensures
        r is Some <==> {
            &&& response@ != "Invalid"@
            &&& address_of(response@) is Some
            &&& report_field(response@, "title"@) is Some
            &&& report_field(response@, "class"@) is Some
        },
        r matches Some(w) ==> {
            &&& address_of(response@) == Some(w.address as int)
            &&& report_field(response@, "title"@) == Some(w.title@)
            &&& report_field(response@, "class"@) == Some(w.class@)
        },
{
    if str_eq(response, "Invalid") {
        return None;
    }
    let v = chars_of(response);
    let total: usize = v.len();
    let newline = chars_of("\n");
    proof {
        reveal_strlit("\n");
    }
    let (line_end, rest_start) = match find_in(&v, &newline) {
        Some(i) => {
            assert(i + 1 <= v@.len());
            (i, i + 1)
        },
        None => (total, total),
    };
    let line = text_of(&v, 0, line_end);
    assert(line@ == first_line(response@));
    let lv = chars_of(line.as_str());
    let start = match find_in(&lv, &chars_of("Window ")) {
        Some(a) => a,
        None => {
            return None;
        },
    };
    let end = match find_in(&lv, &chars_of(" ->")) {
        Some(b) => b,
        None => {
            return None;
        },
    };
    proof {
        reveal_strlit("Window ");
    }
    assert(start + 7 <= lv@.len());
    if start + 7 > end {
        return None;
    }
    let address = match parse_hex_span(&lv, start + 7, end) {
        Some(a) => a,
        None => {
            return None;
        },
    };
    let rest = text_of(&v, rest_start, total);
    assert(rest@ == after_first_line(response@)) by {
        if rest_start == total && line_end == total {
            assert(rest@ =~= Seq::<char>::empty());
        }
    }
    let ls = split_lines(rest.as_str());
    let mut trimmed: Vec<String> = Vec::new();
    let mut i: usize = 0;
    while i < ls.len()
        invariant
            i <= ls@.len(),
            trimmed@.len() == i,
            forall|j: int| 0 <= j < i ==> #[trigger] trimmed@[j]@ == trim_start_of(ls@[j]@),
        decreases ls.len() - i,
    {
        trimmed.push(trim_start(ls[i].as_str()));
        i = i + 1;
    }
    assert(views(trimmed@) =~= views(ls@).map_values(|l: Seq<char>| trim_start_of(l)));
    let cleaned_text = join_with(&trimmed, "\n");
    assert(cleaned_text@ == cleaned(response@));
    let docs = match load_yaml(cleaned_text.as_str()) {
        Ok(docs) => docs,
        Err(_) => {
            return None;
        },
    };
    let title = match string_field(&docs, "title") {
        Some(t) => t,
        None => {
            return None;
        },
    };
    let class = match string_field(&docs, "class") {
        Some(c) => c,
        None => {
            return None;
        },
    };
    Some(Window { address, class, title })
}

} // verus!
