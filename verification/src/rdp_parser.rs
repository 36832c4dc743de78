//! Parser for `.rdp` connection files (`key:type:value` lines).
use vstd::prelude::*;
use vstd::string::*;

use crate::text::{
    ascii_lowercase, chars_of, is_ascii_text, find, find_char, is_whitespace, is_ws, lemma_find_properties, lemma_find_unique, parse_i64, parse_i64_in,
    parse_u16, parse_u16_in, trim, trim_bounds, trim_start,
};

verus! {

/// What `str::to_lowercase` returns for a string (Unicode lowercase mapping).
pub uninterp spec fn str_lowercase(s: Seq<char>) -> Seq<char>;

/// Calls `str::to_lowercase`; its result is named by `str_lowercase`. On
/// ASCII text the Unicode lowercase mapping is the ASCII one, which the
/// contract states; of other text it states nothing more.
#[verifier::external_body]
fn to_lowercase(s: &str) -> (r: String)
    ensures
        r@ == str_lowercase(s@),
        is_ascii_text(s@) ==> r@ == ascii_lowercase(s@),
{
    s.to_lowercase()
}

/// Lowercase letters and spaces are left as they are by the ASCII mapping.
proof fn lemma_lowercase_fixed(s: Seq<char>)
    requires
        forall|i: int| 0 <= i < s.len() ==> (0x61 <= #[trigger] (s[i] as u32) <= 0x7A || s[i] == ' '),
    ensures
        is_ascii_text(s),
        ascii_lowercase(s) == s,
{
    assert(ascii_lowercase(s) =~= s);
}

/// A typed value of an `.rdp` entry.
#[derive(Debug, Clone)]
pub enum RdpValue {
    Integer(i64),
    String(String),
}

/// The mathematical value of an entry.
pub enum SpecRdpValue {
    Integer(i64),
    Text(Seq<char>),
}

impl View for RdpValue {
    type V = SpecRdpValue;

    open spec fn view(&self) -> SpecRdpValue {
        match self {
            RdpValue::Integer(n) => SpecRdpValue::Integer(*n),
            RdpValue::String(s) => SpecRdpValue::Text(s@),
        }
    }
}

// ---------------------------------------------------------------------------
// The file format
// ---------------------------------------------------------------------------

/// `l` without one trailing carriage return.
pub open spec fn strip_cr(l: Seq<char>) -> Seq<char> {
    if l.len() > 0 && l.last() == '\r' {
        l.drop_last()
    } else {
        l
    }
}

/// `str::lines`: the pieces between line feeds, each without one `\r` before its
/// `\n`; a last piece without `\n` is kept as it is, and nothing follows a final `\n`.
pub open spec fn lines(s: Seq<char>) -> Seq<Seq<char>>
    decreases s.len(),
{
    if s.len() == 0 {
        Seq::empty()
    } else {
        match find(s, '\n') {
            Some(i) => {
                proof {
                    lemma_find_properties(s, '\n');
                }
                seq![strip_cr(s.take(i as int))] + lines(s.skip(i as int + 1))
            },
            None => seq![s],
        }
    }
}

/// The part of `s` before the first `c`, or all of `s`.
pub open spec fn before(s: Seq<char>, c: char) -> Seq<char> {
    match find(s, c) {
        Some(i) => s.take(i as int),
        None => s,
    }
}

/// The entry that one line defines, if any: after trimming, a line that is not
/// empty and not a `#` comment is split at its first two colons into key, type
/// and value; the key is lowercased, type `i` holds an `i64`, type `s` a string.
pub open spec fn parse_line(line: Seq<char>) -> Option<(Seq<char>, SpecRdpValue)> {
    let t = trim(line);
    if t.len() == 0 || t[0] == '#' {
        None
    } else {
        match find(t, ':') {
            None => None,
            Some(i) => {
                let rest = t.skip(i as int + 1);
                match find(rest, ':') {
                    None => None,
                    Some(j) => {
                        let key = str_lowercase(t.take(i as int));
                        let typ = rest.take(j as int);
                        let val = rest.skip(j as int + 1);
                        if typ == seq!['i'] {
                            match parse_i64(val) {
                                Some(n) => Some((key, SpecRdpValue::Integer(n))),
                                None => None,
                            }
                        } else if typ == seq!['s'] {
                            Some((key, SpecRdpValue::Text(val)))
                        } else {
                            None
                        }
                    },
                }
            },
        }
    }
}

/// The entries defined by a sequence of lines; a later line overrides an
/// earlier one with the same key.
pub open spec fn parse_lines(ls: Seq<Seq<char>>) -> Map<Seq<char>, SpecRdpValue>
    decreases ls.len(),
{
    if ls.len() == 0 {
        Map::empty()
    } else {
        let m = parse_lines(ls.drop_last());
        match parse_line(ls.last()) {
            Some((k, v)) => m.insert(k, v),
            None => m,
        }
    }
}

/// The entries of an `.rdp` file with the given text.
pub open spec fn parse_content(content: Seq<char>) -> Map<Seq<char>, SpecRdpValue> {
    parse_lines(lines(content))
}

/// The value stored under `k`, if any.
pub open spec fn lookup(m: Map<Seq<char>, SpecRdpValue>, k: Seq<char>) -> Option<SpecRdpValue> {
    if m.dom().contains(k) {
        Some(m[k])
    } else {
        None
    }
}

/// The string stored under `k`, if there is one.
pub open spec fn text_of(m: Map<Seq<char>, SpecRdpValue>, k: Seq<char>) -> Option<Seq<char>> {
    match lookup(m, k) {
        Some(SpecRdpValue::Text(s)) => Some(s),
        _ => None,
    }
}

/// The integer stored under `k`, if there is one.
pub open spec fn int_of(m: Map<Seq<char>, SpecRdpValue>, k: Seq<char>) -> Option<i64> {
    match lookup(m, k) {
        Some(SpecRdpValue::Integer(n)) => Some(n),
        _ => None,
    }
}

pub open spec fn str_view(r: Option<&str>) -> Option<Seq<char>> {
    match r {
        Some(s) => Some(s@),
        None => None,
    }
}

pub open spec fn string_view(r: Option<String>) -> Option<Seq<char>> {
    match r {
        Some(s) => Some(s@),
        None => None,
    }
}

/// The port of an address `host:port[:...]`: the field after the first colon.
pub open spec fn address_port_field(a: Seq<char>) -> Option<Seq<char>> {
    match find(a, ':') {
        Some(i) => Some(before(a.skip(i as int + 1), ':')),
        None => None,
    }
}

/// The port of a file: `server port` when it holds an integer (truncated to
/// 16 bits), else the port field of `full address` when it parses, else 3389.
pub open spec fn spec_port(m: Map<Seq<char>, SpecRdpValue>) -> u16 {
    match int_of(m, "server port"@) {
        Some(p) => p as u16,
        None => match text_of(m, "full address"@) {
            Some(a) => match address_port_field(a) {
                Some(f) => match parse_u16(f) {
                    Some(p) => p,
                    None => 3389,
                },
                None => 3389,
            },
            None => 3389,
        },
    }
}

// ---------------------------------------------------------------------------
// Whitespace-separated tokens (`str::split_whitespace`)
// ---------------------------------------------------------------------------

/// Index of the first whitespace character of `s`, or its length.
pub open spec fn find_ws(s: Seq<char>) -> nat
    decreases s.len(),
{
    if s.len() == 0 {
        0
    } else if is_ws(s[0]) {
        0
    } else {
        find_ws(s.drop_first()) + 1
    }
}

pub proof fn lemma_find_ws(s: Seq<char>)
    ensures
        find_ws(s) <= s.len(),
        forall|j: int| 0 <= j < find_ws(s) ==> !is_ws(#[trigger] s[j]),
        find_ws(s) < s.len() ==> is_ws(s[find_ws(s) as int]),
    decreases s.len(),
{
    if s.len() > 0 && !is_ws(s[0]) {
        lemma_find_ws(s.drop_first());
        assert forall|j: int| 0 <= j < find_ws(s) implies !is_ws(#[trigger] s[j]) by {
            if j > 0 {
                assert(s[j] == s.drop_first()[j - 1]);
            }
        }
    }
}

pub proof fn lemma_find_ws_unique(s: Seq<char>, k: int)
    requires
        0 <= k <= s.len(),
        forall|j: int| 0 <= j < k ==> !is_ws(#[trigger] s[j]),
        k < s.len() ==> is_ws(s[k]),
    ensures
        find_ws(s) == k,
{
    lemma_find_ws(s);
    if (find_ws(s) as int) < k {
        assert(!is_ws(s[find_ws(s) as int]));
    } else if k < (find_ws(s) as int) {
        assert(!is_ws(s[k]));
    }
}

pub proof fn lemma_trim_start_len(s: Seq<char>)
    ensures
        trim_start(s).len() <= s.len(),
        trim_start(s).len() > 0 ==> !is_ws(trim_start(s)[0]),
    decreases s.len(),
{
    if s.len() > 0 && is_ws(s[0]) {
        lemma_trim_start_len(s.drop_first());
    }
}

/// `str::split_whitespace`: the maximal runs of non-whitespace characters.
pub open spec fn tokens(s: Seq<char>) -> Seq<Seq<char>>
    decreases s.len(),
{
    let t = trim_start(s);
    if t.len() == 0 {
        Seq::empty()
    } else {
        let k = find_ws(t);
        proof {
            lemma_trim_start_len(s);
            lemma_find_ws(t);
        }
        seq![t.take(k as int)] + tokens(t.skip(k as int))
    }
}

/// The token that follows the first `/sso` token, if there is one.
pub open spec fn sso_after(ts: Seq<Seq<char>>) -> Option<Seq<char>>
    decreases ts.len(),
{
    if ts.len() == 0 {
        None
    } else if ts[0] == seq!['/', 's', 's', 'o'] {
        if ts.len() > 1 {
            Some(ts[1])
        } else {
            None
        }
    } else {
        sso_after(ts.drop_first())
    }
}

// ---------------------------------------------------------------------------
// The parsed file
// ---------------------------------------------------------------------------

/// The map that a list of entries with distinct keys stands for.
pub open spec fn entries_map(es: Seq<(String, RdpValue)>) -> Map<Seq<char>, SpecRdpValue> {
    Map::new(
        |k: Seq<char>| exists|i: int| 0 <= i < es.len() && es[i].0@ == k,
        |k: Seq<char>| es[choose|i: int| 0 <= i < es.len() && es[i].0@ == k].1@,
    )
}

pub open spec fn keys_unique(es: Seq<(String, RdpValue)>) -> bool {
    forall|i: int, j: int| 0 <= i < es.len() && 0 <= j < es.len() && i != j ==> es[i].0@ != es[j].0@
}

// ---------------------------------------------------------------------------
// Appending a line
// ---------------------------------------------------------------------------

/// The entries once `line` is read after those in `m`.
pub open spec fn add_line(m: Map<Seq<char>, SpecRdpValue>, line: Seq<char>) -> Map<
    Seq<char>,
    SpecRdpValue,
> {
    match parse_line(line) {
        Some((k, v)) => m.insert(k, v),
        None => m,
    }
}

/// Dropping trailing whitespace from the leading-trimmed text.
proof fn lemma_trim_start_drop_ws(s: Seq<char>)
    requires
        s.len() > 0,
        is_ws(s.last()),
    ensures
        trim_start(s.drop_last()) == (if trim_start(s).len() == 0 {
            Seq::<char>::empty()
        } else {
            trim_start(s).drop_last()
        }),
        trim_start(s).len() > 0 ==> trim_start(s).last() == s.last(),
    decreases s.len(),
{
    if is_ws(s[0]) {
        if s.len() > 1 {
            let t = s.drop_first();
            assert(t.last() == s.last());
            lemma_trim_start_drop_ws(t);
            assert(s.drop_last().drop_first() =~= t.drop_last());
        }
    } else {
        assert(s.len() > 1);
    }
}

/// A trailing whitespace character does not change the trimmed text.
proof fn lemma_trim_drop_ws(s: Seq<char>)
    requires
        s.len() > 0,
        is_ws(s.last()),
    ensures
        trim(s.drop_last()) == trim(s),
{
    lemma_trim_start_drop_ws(s);
}

/// A line read with or without one trailing carriage return defines the same entry.
proof fn lemma_parse_line_strip_cr(l: Seq<char>)
    ensures
        parse_line(strip_cr(l)) == parse_line(l),
{
    if l.len() > 0 && l.last() == '\r' {
        lemma_trim_drop_ws(l);
    }
}

/// Where the first line feed of `a + "\n" + b` is, when `b` has none.
proof fn lemma_find_lf_append(a: Seq<char>, b: Seq<char>)
    requires
        find(b, '\n') is None,
    ensures
        find(a + seq!['\n'] + b, '\n') == (match find(a, '\n') {
            Some(i) => Some(i),
            None => Some(a.len()),
        }),
{
    let s = a + seq!['\n'] + b;
    lemma_find_properties(a, '\n');
    match find(a, '\n') {
        Some(i) => {
            assert forall|j: int| 0 <= j < i implies s[j] != '\n' by {
                assert(s[j] == a[j]);
            }
            lemma_find_unique(s, '\n', i as int);
        },
        None => {
            assert forall|j: int| 0 <= j < a.len() implies s[j] != '\n' by {
                assert(s[j] == a[j]);
            }
            lemma_find_unique(s, '\n', a.len() as int);
        },
    }
}

/// A last line without line feed is the last of the lines.
proof fn lemma_lines_append(a: Seq<char>, b: Seq<char>)
    requires
        b.len() > 0,
        find(b, '\n') is None,
    ensures
        lines(a + seq!['\n'] + b) == lines(a + seq!['\n']).push(b),
    decreases a.len(),
{
    let s = a + seq!['\n'] + b;
    let t = a + seq!['\n'];
    lemma_find_lf_append(a, b);
    lemma_find_lf_append(a, Seq::empty());
    assert(t =~= a + seq!['\n'] + Seq::<char>::empty());
    lemma_find_properties(a, '\n');
    match find(a, '\n') {
        Some(i) => {
            let a2 = a.skip(i as int + 1);
            lemma_lines_append(a2, b);
            assert(s.take(i as int) =~= a.take(i as int));
            assert(t.take(i as int) =~= a.take(i as int));
            assert(s.skip(i as int + 1) =~= a2 + seq!['\n'] + b);
            assert(t.skip(i as int + 1) =~= a2 + seq!['\n']);
            let x = strip_cr(a.take(i as int));
            let l2 = lines(a2 + seq!['\n']);
            assert(lines(s) == seq![x] + lines(a2 + seq!['\n'] + b));
            assert(lines(t) == seq![x] + l2);
            assert(seq![x] + l2.push(b) =~= (seq![x] + l2).push(b));
        },
        None => {
            assert(s.take(a.len() as int) =~= a);
            assert(t.take(a.len() as int) =~= a);
            assert(s.skip(a.len() as int + 1) =~= b);
            assert(t.skip(a.len() as int + 1) =~= Seq::<char>::empty());
            assert(lines(b) == seq![b]);
            assert(lines(Seq::<char>::empty()) =~= Seq::<Seq<char>>::empty());
            assert(lines(s) == seq![strip_cr(a)] + seq![b]);
            assert(lines(t) == seq![strip_cr(a)] + Seq::<Seq<char>>::empty());
            assert(seq![strip_cr(a)] + seq![b] =~= (seq![strip_cr(a)] + Seq::<Seq<char>>::empty()).push(b));
        },
    }
}

/// Reading a first line, then others, is reading the others over its entry.
proof fn lemma_parse_lines_cons(x: Seq<char>, ys: Seq<Seq<char>>)
    ensures
        parse_lines(seq![x] + ys) == add_line(Map::empty(), x).union_prefer_right(parse_lines(ys)),
    decreases ys.len(),
{
    if ys.len() == 0 {
        assert(seq![x] + ys =~= seq![x]);
        assert(seq![x].drop_last() =~= Seq::<Seq<char>>::empty());
        assert(seq![x].last() == x);
        assert(parse_lines(Seq::<Seq<char>>::empty()) == Map::<Seq<char>, SpecRdpValue>::empty());
        assert(parse_lines(seq![x]) == add_line(Map::empty(), x));
        assert(add_line(Map::empty(), x).union_prefer_right(Map::empty()) =~= add_line(
            Map::empty(),
            x,
        ));
    } else {
        lemma_parse_lines_cons(x, ys.drop_last());
        assert((seq![x] + ys).drop_last() =~= seq![x] + ys.drop_last());
        assert((seq![x] + ys).last() == ys.last());
        assert(parse_lines(seq![x] + ys) == add_line(parse_lines(seq![x] + ys.drop_last()), ys.last()));
        assert(parse_lines(ys) == add_line(parse_lines(ys.drop_last()), ys.last()));
        let base = add_line(Map::empty(), x);
        let m = parse_lines(ys.drop_last());
        match parse_line(ys.last()) {
            Some((k, v)) => {
                assert(base.union_prefer_right(m).insert(k, v) =~= base.union_prefer_right(
                    m.insert(k, v),
                ));
            },
            None => {},
        }
    }
}

/// A final line feed adds no entry.
proof fn lemma_parse_lines_final_lf(a: Seq<char>)
    ensures
        parse_lines(lines(a + seq!['\n'])) == parse_lines(lines(a)),
    decreases a.len(),
{
    let t = a + seq!['\n'];
    lemma_find_lf_append(a, Seq::empty());
    assert(t =~= a + seq!['\n'] + Seq::<char>::empty());
    lemma_find_properties(a, '\n');
    match find(a, '\n') {
        Some(i) => {
            let a2 = a.skip(i as int + 1);
            lemma_parse_lines_final_lf(a2);
            assert(t.take(i as int) =~= a.take(i as int));
            assert(t.skip(i as int + 1) =~= a2 + seq!['\n']);
            let x = strip_cr(a.take(i as int));
            lemma_parse_lines_cons(x, lines(a2 + seq!['\n']));
            lemma_parse_lines_cons(x, lines(a2));
        },
        None => {
            assert(t.take(a.len() as int) =~= a);
            assert(t.skip(a.len() as int + 1) =~= Seq::<char>::empty());
            assert(lines(Seq::<char>::empty()) =~= Seq::<Seq<char>>::empty());
            assert(lines(t) == seq![strip_cr(a)] + lines(Seq::<char>::empty()));
            assert(lines(t) =~= seq![strip_cr(a)]);
            assert(seq![strip_cr(a)].drop_last() =~= Seq::<Seq<char>>::empty());
            lemma_parse_line_strip_cr(a);
            if a.len() > 0 {
                assert(lines(a) == seq![a]);
                assert(seq![a].drop_last() =~= Seq::<Seq<char>>::empty());
            } else {
                assert(trim(strip_cr(a)).len() == 0);
            }
        },
    }
}

/// Appending a line to a file, after a line feed, adds that line's entry,
/// replacing an earlier value under the same key, and changes nothing else.
pub proof fn lemma_parse_appended_line(content: Seq<char>, line: Seq<char>)
    requires
        find(line, '\n') is None,
    ensures
        parse_content(content + seq!['\n'] + line) == add_line(parse_content(content), line),
{
    lemma_parse_lines_final_lf(content);
    if line.len() == 0 {
        assert(content + seq!['\n'] + line =~= content + seq!['\n']);
        assert(trim(line).len() == 0);
    } else {
        lemma_lines_append(content, line);
        let ls = lines(content + seq!['\n']).push(line);
        assert(ls.drop_last() =~= lines(content + seq!['\n']));
        assert(ls.last() == line);
    }
}


pub proof fn lemma_entries_lookup(es: Seq<(String, RdpValue)>, i: int)
    requires
        keys_unique(es),
        0 <= i < es.len(),
    ensures
        entries_map(es).dom().contains(es[i].0@),
        entries_map(es)[es[i].0@] == es[i].1@,
{
    let k = es[i].0@;
    assert(exists|j: int| 0 <= j < es.len() && es[j].0@ == k);
    let j = choose|j: int| 0 <= j < es.len() && es[j].0@ == k;
    assert(j == i);
}

/// Parsed RDP file content
#[derive(Debug)]
pub struct RdpFile {
    /// Key-value entries, keys distinct
    entries: Vec<(String, RdpValue)>,
}

impl View for RdpFile {
    type V = Map<Seq<char>, SpecRdpValue>;

    closed spec fn view(&self) -> Map<Seq<char>, SpecRdpValue> {
        entries_map(self.entries@)
    }
}

impl RdpFile {
    #[verifier::type_invariant]
    spec fn inv(self) -> bool {
        keys_unique(self.entries@)
    }

    /// Sets `key` to `value`, replacing an earlier value.
    fn insert(&mut self, key: String, value: RdpValue)
        ensures
            final(self)@ == old(self)@.insert(key@, value@),
    {
        proof {
            use_type_invariant(&*self);
        }
        let ghost old_es = self.entries@;
        let mut i: usize = 0;
        while i < self.entries.len()
            invariant
                self.entries@ == old_es,
                old(self)@ == entries_map(old_es),
                keys_unique(old_es),
                0 <= i <= old_es.len(),
                forall|j: int| 0 <= j < i ==> old_es[j].0@ != key@,
            decreases old_es.len() - i,
        {
            if self.entries[i].0 == key {
                let ghost k = key@;
                let ghost v = value@;
                let ghost new_es = old_es.update(i as int, (key, value));
                proof {
                    assert(keys_unique(new_es)) by {
                        assert forall|a: int, b: int|
                            0 <= a < new_es.len() && 0 <= b < new_es.len() && a != b implies new_es[a].0@
                            != new_es[b].0@ by {
                            assert(old_es[a].0@ != old_es[b].0@);
                        }
                    }
                    assert forall|k2: Seq<char>|
                        #![trigger entries_map(new_es).dom().contains(k2)]
                        entries_map(new_es).dom().contains(k2)
                            <==> entries_map(old_es).insert(k, v).dom().contains(k2) by {
                        if entries_map(old_es).dom().contains(k2) {
                            let j = choose|j: int| 0 <= j < old_es.len() && old_es[j].0@ == k2;
                            assert(new_es[j].0@ == k2);
                        }
                        if entries_map(new_es).dom().contains(k2) {
                            let j = choose|j: int| 0 <= j < new_es.len() && new_es[j].0@ == k2;
                            assert(old_es[j].0@ == k2);
                        }
                    }
                    assert forall|k2: Seq<char>|
                        #![trigger entries_map(new_es)[k2]]
                        entries_map(new_es).dom().contains(k2) implies entries_map(new_es)[k2]
                            == entries_map(old_es).insert(k, v)[k2] by {
                        let j = choose|j: int| 0 <= j < new_es.len() && new_es[j].0@ == k2;
                        lemma_entries_lookup(new_es, j);
                        if j != i {
                            lemma_entries_lookup(old_es, j);
                        }
                    }
                    assert(entries_map(new_es) =~= entries_map(old_es).insert(k, v));
                }
                let mut es: Vec<(String, RdpValue)> = Vec::new();
                std::mem::swap(&mut es, &mut self.entries);
                es.set(i, (key, value));
                self.entries = es;
                return ;
            }
            i = i + 1;
        }
        let ghost k = key@;
        let ghost v = value@;
        let ghost new_es = old_es.push((key, value));
        proof {
            assert(keys_unique(new_es)) by {
                assert forall|a: int, b: int|
                    0 <= a < new_es.len() && 0 <= b < new_es.len() && a != b implies new_es[a].0@
                    != new_es[b].0@ by {
                    if a < old_es.len() && b < old_es.len() {
                        assert(old_es[a].0@ != old_es[b].0@);
                    }
                }
            }
            assert forall|k2: Seq<char>|
                #![trigger entries_map(new_es).dom().contains(k2)]
                entries_map(new_es).dom().contains(k2) <==> entries_map(old_es).insert(
                    k,
                    v,
                ).dom().contains(k2) by {
                if entries_map(old_es).dom().contains(k2) {
                    let j = choose|j: int| 0 <= j < old_es.len() && old_es[j].0@ == k2;
                    assert(new_es[j].0@ == k2);
                }
                if k2 == k {
                    assert(new_es[old_es.len() as int].0@ == k2);
                }
                if entries_map(new_es).dom().contains(k2) {
                    let j = choose|j: int| 0 <= j < new_es.len() && new_es[j].0@ == k2;
                    if j < old_es.len() {
                        assert(old_es[j].0@ == k2);
                    }
                }
            }
            assert forall|k2: Seq<char>|
                #![trigger entries_map(new_es)[k2]]
                entries_map(new_es).dom().contains(k2) implies entries_map(new_es)[k2]
                    == entries_map(old_es).insert(k, v)[k2] by {
                let j = choose|j: int| 0 <= j < new_es.len() && new_es[j].0@ == k2;
                lemma_entries_lookup(new_es, j);
                if j < old_es.len() {
                    lemma_entries_lookup(old_es, j);
                }
            }
            assert(entries_map(new_es) =~= entries_map(old_es).insert(k, v));
        }
        let mut es: Vec<(String, RdpValue)> = Vec::new();
        std::mem::swap(&mut es, &mut self.entries);
        es.push((key, value));
        self.entries = es;
    }

    /// Looks up an entry by its exact key.
    fn get(&self, key: &String) -> (r: Option<&RdpValue>)
        ensures
            match r {
                Some(v) => lookup(self@, key@) == Some(v@),
                None => lookup(self@, key@) is None,
            },
    {
        proof {
            use_type_invariant(self);
        }
        let mut i: usize = 0;
        while i < self.entries.len()
            invariant
                keys_unique(self.entries@),
                0 <= i <= self.entries@.len(),
                forall|j: int| 0 <= j < i ==> self.entries@[j].0@ != key@,
            decreases self.entries@.len() - i,
        {
            if self.entries[i].0 == *key {
                proof {
                    lemma_entries_lookup(self.entries@, i as int);
                }
                return Some(&self.entries[i].1);
            }
            i = i + 1;
        }
        assert(!self@.dom().contains(key@));
        None
    }

    fn get_text(&self, key: &String) -> (r: Option<&str>)
        ensures
            str_view(r) == text_of(self@, key@),
    {
        match self.get(key) {
            Some(RdpValue::String(s)) => Some(s.as_str()),
            _ => None,
        }
    }

    fn get_integer(&self, key: &String) -> (r: Option<i64>)
        ensures
            r == int_of(self@, key@),
    {
        match self.get(key) {
            Some(RdpValue::Integer(n)) => Some(*n),
            _ => None,
        }
    }

    /// Parses the text of an `.rdp` file.
    ///
    /// RDP files use the format: `key:type:value`
    /// where type is `i` for integer or `s` for string.
    /// Malformed lines, lines of an unknown type and integers that do not
    /// parse are skipped; a later line overrides an earlier one.
    pub fn parse(content: &str) -> (r: Self)
        ensures
            r@ == parse_content(content@),
    {
        let chars = chars_of(content);
        let n = chars.len();
        let mut file = RdpFile { entries: Vec::new() };
        let mut pos: usize = 0;
        let ghost mut done: Seq<Seq<char>> = Seq::empty();
        assert(chars@.skip(0) =~= chars@);
        assert(file@ =~= Map::<Seq<char>, SpecRdpValue>::empty());
        while pos < n
            invariant
                chars@ == content@,
                n == chars@.len(),
                pos <= n,
                lines(content@) == done + lines(chars@.skip(pos as int)),
                file@ == parse_lines(done),
            decreases n - pos,
        {
            let nl = find_char(&chars, pos, n, '\n');
            let ghost rest = chars@.skip(pos as int);
            assert(chars@.subrange(pos as int, n as int) =~= rest);
            let line_end = if nl < n && nl > pos && chars[nl - 1] == '\r' {
                nl - 1
            } else {
                nl
            };
            let ghost line = chars@.subrange(pos as int, line_end as int);
            proof {
                if nl < n {
                    assert(rest.take(nl - pos) =~= chars@.subrange(pos as int, nl as int));
                    assert(rest.skip(nl - pos + 1) =~= chars@.skip(nl + 1));
                    if nl > pos && chars@[nl - 1] == '\r' {
                        assert(chars@.subrange(pos as int, nl as int).drop_last() =~= line);
                    }
                    assert(line == strip_cr(rest.take(nl - pos)));
                    assert(lines(rest) == seq![line] + lines(chars@.skip(nl + 1)));
                } else {
                    assert(line =~= rest);
                    assert(lines(rest) == seq![line]);
                    assert(chars@.skip(n as int) =~= Seq::<char>::empty());
                }
            }
            match parse_line_at(content, &chars, pos, line_end) {
                Some((k, v)) => {
                    file.insert(k, v);
                },
                None => {},
            }
            proof {
                let nd = done.push(line);
                assert(nd.drop_last() =~= done);
                if nl < n {
                    assert(done + lines(rest) =~= nd + lines(chars@.skip(nl + 1)));
                } else {
                    assert(done + lines(rest) =~= nd + lines(chars@.skip(n as int)));
                }
                done = nd;
            }
            pos = if nl < n {
                nl + 1
            } else {
                n
            };
        }
        assert(chars@.skip(n as int) =~= Seq::<char>::empty());
        assert(done + Seq::<Seq<char>>::empty() =~= done);
        file
    }

    /// Get the full address (hostname:port or just hostname)
    pub fn full_address(&self) -> (r: Option<&str>)
        ensures
            str_view(r) == text_of(self@, "full address"@),
    {
        self.get_text(&String::from_str("full address"))
    }

    /// Get the hostname (without port)
    pub fn hostname(&self) -> (r: Option<String>)
        ensures
            string_view(r) == match text_of(self@, "full address"@) {
                Some(a) => Some(before(a, ':')),
                None => None,
            },
    {
        match self.full_address() {
            Some(addr) => {
                let cs = chars_of(addr);
                let i = find_char(&cs, 0, cs.len(), ':');
                assert(cs@.subrange(0, cs@.len() as int) =~= cs@);
                let host = addr.substring_char(0, i);
                assert(cs@.subrange(0, i as int) =~= cs@.take(i as int));
                Some(String::from_str(host))
            },
            None => None,
        }
    }

    /// Get gateway hostname if configured
    pub fn gateway_hostname(&self) -> (r: Option<&str>)
        ensures
            str_view(r) == text_of(self@, "gatewayhostname"@),
    {
        proof {
            reveal_strlit("gatewayhostname");
            lemma_lowercase_fixed("gatewayhostname"@);
        }
        self.get_str("gatewayhostname")
    }

    /// Get gateway usage method (0 = no gateway, 1 = use gateway)
    pub fn gateway_usage(&self) -> (r: bool)
        ensures
            r == (int_of(self@, "gatewayusagemethod"@) == Some(1i64)),
    {
        proof {
            reveal_strlit("gatewayusagemethod");
            lemma_lowercase_fixed("gatewayusagemethod"@);
        }
        match self.get_int("gatewayusagemethod") {
            Some(1) => true,
            _ => false,
        }
    }

    /// Get gateway access token (username for gateway auth)
    pub fn gateway_access_token(&self) -> (r: Option<&str>)
        ensures
            str_view(r) == text_of(self@, "gatewayaccesstoken"@),
    {
        proof {
            reveal_strlit("gatewayaccesstoken");
            lemma_lowercase_fixed("gatewayaccesstoken"@);
        }
        self.get_str("gatewayaccesstoken")
    }

    /// Get the port (default 3389)
    pub fn port(&self) -> (r: u16)
        ensures
            r == spec_port(self@),
    {
        if let Some(p) = self.get_integer(&String::from_str("server port")) {
            return p as u16;
        }
        if let Some(addr) = self.full_address() {
            let cs = chars_of(addr);
            let n = cs.len();
            let i = find_char(&cs, 0, n, ':');
            assert(cs@.subrange(0, n as int) =~= cs@);
            if i < n {
                let j = find_char(&cs, i + 1, n, ':');
                assert(cs@.subrange(i + 1, n as int) =~= cs@.skip(i + 1));
                assert(cs@.subrange(i + 1, j as int) =~= before(cs@.skip(i + 1), ':'));
                if let Some(p) = parse_u16_in(&cs, i + 1, j) {
                    return p;
                }
            }
        }
        3389
    }

    /// Get the username if present
    pub fn username(&self) -> (r: Option<&str>)
        ensures
            str_view(r) == text_of(self@, "username"@),
    {
        self.get_text(&String::from_str("username"))
    }

    /// Get the domain if present
    pub fn domain(&self) -> (r: Option<&str>)
        ensures
            str_view(r) == text_of(self@, "domain"@),
    {
        self.get_text(&String::from_str("domain"))
    }

    /// Get desktop width (truncated to 16 bits)
    pub fn desktop_width(&self) -> (r: Option<u16>)
        ensures
            r == match int_of(self@, "desktopwidth"@) {
                Some(n) => Some(n as u16),
                None => None,
            },
    {
        match self.get_integer(&String::from_str("desktopwidth")) {
            Some(n) => Some(n as u16),
            None => None,
        }
    }

    /// Get desktop height (truncated to 16 bits)
    pub fn desktop_height(&self) -> (r: Option<u16>)
        ensures
            r == match int_of(self@, "desktopheight"@) {
                Some(n) => Some(n as u16),
                None => None,
            },
    {
        match self.get_integer(&String::from_str("desktopheight")) {
            Some(n) => Some(n as u16),
            None => None,
        }
    }

    /// Check if CredSSP/NLA should be enabled
    /// Returns true if EnableCredSspSupport is non-zero, false if 0, None if not present
    pub fn enable_credssp(&self) -> (r: Option<bool>)
        ensures
            r == match int_of(self@, "enablecredsspsupport"@) {
                Some(n) => Some(n != 0),
                None => None,
            },
    {
        match self.get_integer(&String::from_str("enablecredsspsupport")) {
            Some(n) => Some(n != 0),
            None => None,
        }
    }

    /// Get the alternate shell (used by CyberArk for PSM token)
    pub fn alternate_shell(&self) -> (r: Option<&str>)
        ensures
            str_view(r) == text_of(self@, "alternate shell"@),
    {
        self.get_text(&String::from_str("alternate shell"))
    }

    /// Get an integer value by key (the key is lowercased)
    pub fn get_int(&self, key: &str) -> (r: Option<i64>)
        ensures
            r == int_of(self@, str_lowercase(key@)),
            is_ascii_text(key@) ==> str_lowercase(key@) == ascii_lowercase(key@),
    {
        let k = to_lowercase(key);
        self.get_integer(&k)
    }

    /// Get a string value by key (the key is lowercased)
    pub fn get_str(&self, key: &str) -> (r: Option<&str>)
        ensures
            str_view(r) == text_of(self@, str_lowercase(key@)),
            is_ascii_text(key@) ==> str_lowercase(key@) == ascii_lowercase(key@),
    {
        let k = to_lowercase(key);
        self.get_text(&k)
    }

    /// Get all entries (for debugging); keys are distinct.
    pub fn entries(&self) -> (r: &Vec<(String, RdpValue)>)
        ensures
            keys_unique(r@),
            entries_map(r@) == self@,
    {
        proof {
            use_type_invariant(self);
        }
        &self.entries
    }

    /// Extract SSO token from alternate shell parameter
    /// Format: "/sso <token> /sso_type rdp_file"
    pub fn sso_token(&self) -> (r: Option<&str>)
        ensures
            str_view(r) == match text_of(self@, "alternate shell"@) {
                Some(shell) => sso_after(tokens(shell)),
                None => None,
            },
    {
        proof {
            reveal_strlit("alternate shell");
            lemma_lowercase_fixed("alternate shell"@);
        }
        let alt_shell = match self.get_str("alternate shell") {
            Some(s) => s,
            None => return None,
        };
        let ghost shell = alt_shell@;
        assert(text_of(self@, "alternate shell"@) == Some(shell));
        let cs = chars_of(alt_shell);
        let n = cs.len();
        let mut pos: usize = 0;
        assert(cs@.skip(0) =~= cs@);
        while pos < n
            invariant
                cs@ == alt_shell@,
                shell == alt_shell@,
                text_of(self@, "alternate shell"@) == Some(shell),
                n == cs@.len(),
                pos <= n,
                sso_after(tokens(cs@)) == sso_after(tokens(cs@.skip(pos as int))),
            decreases n - pos,
        {
            let (a, b) = next_token(&cs, pos);
            if a == n {
                assert(sso_after(tokens(cs@.skip(pos as int))) is None);
                assert(sso_after(tokens(shell)) is None);
                return None;
            }
            let is_sso = b - a == 4 && cs[a] == '/' && cs[a + 1] == 's' && cs[a + 2] == 's'
                && cs[a + 3] == 'o';
            let ghost tok = cs@.subrange(a as int, b as int);
            let ghost ts = tokens(cs@.skip(pos as int));
            assert(ts == seq![tok] + tokens(cs@.skip(b as int)));
            assert(ts[0] == tok);
            assert(ts.drop_first() =~= tokens(cs@.skip(b as int)));
            if is_sso {
                assert(tok =~= seq!['/', 's', 's', 'o']);
                let (c, d) = next_token(&cs, b);
                if c == n {
                    assert(ts =~= seq![tok]);
                    assert(sso_after(ts) is None);
                    return None;
                }
                assert(ts =~= seq![tok, cs@.subrange(c as int, d as int)] + tokens(cs@.skip(d as int)));
                assert(sso_after(ts) == Some(cs@.subrange(c as int, d as int)));
                return Some(alt_shell.substring_char(c, d));
            }
            assert(tok != seq!['/', 's', 's', 'o']) by {
                if tok == seq!['/', 's', 's', 'o'] {
                    assert(tok.len() == 4);
                    assert(b - a == 4);
                    assert(cs@[a as int] == tok[0]);
                    assert(cs@[a + 1] == tok[1]);
                    assert(cs@[a + 2] == tok[2]);
                    assert(cs@[a + 3] == tok[3]);
                }
            }
            pos = b;
        }
        assert(cs@.skip(n as int) =~= Seq::<char>::empty());
        None
    }
}

/// The next whitespace-separated token of `s` at or after `pos`: its bounds
/// `(a, b)`, or `(len, len)` when only whitespace is left.
fn next_token(s: &Vec<char>, pos: usize) -> (r: (usize, usize))
    requires
        pos <= s.len(),
    ensures
        r.0 <= r.1 <= s.len(),
        r.0 == s.len() ==> r.1 == s.len() && tokens(s@.skip(pos as int)) == Seq::<Seq<char>>::empty(),
        r.0 < s.len() ==> pos <= r.0 < r.1 && tokens(s@.skip(pos as int)) == seq![
            s@.subrange(r.0 as int, r.1 as int),
        ] + tokens(s@.skip(r.1 as int)),
{
    let n = s.len();
    let mut a = pos;
    while a < n && is_whitespace(s[a])
        invariant
            pos <= a <= n == s.len(),
            trim_start(s@.skip(pos as int)) == trim_start(s@.skip(a as int)),
        decreases n - a,
    {
        assert(s@.skip(a as int).drop_first() =~= s@.skip(a + 1));
        a = a + 1;
    }
    let ghost t = s@.skip(a as int);
    assert(trim_start(t) == t);
    if a == n {
        assert(t =~= Seq::<char>::empty());
        return (n, n);
    }
    let mut b = a + 1;
    while b < n && !is_whitespace(s[b])
        invariant
            a < b <= n == s.len(),
            forall|j: int| a <= j < b ==> !is_ws(#[trigger] s@[j]),
        decreases n - b,
    {
        b = b + 1;
    }
    proof {
        assert forall|j: int| 0 <= j < b - a implies !is_ws(#[trigger] t[j]) by {
            assert(t[j] == s@[a + j]);
        }
        if b < n {
            assert(t[b - a] == s@[b as int]);
        }
        lemma_find_ws_unique(t, b - a);
        assert(t.take(b - a) =~= s@.subrange(a as int, b as int));
        assert(t.skip(b - a) =~= s@.skip(b as int));
    }
    (a, b)
}

/// The entry defined by the line `chars[lo..hi]` of `content`.
fn parse_line_at(content: &str, chars: &Vec<char>, lo: usize, hi: usize) -> (r: Option<
    (String, RdpValue),
>)
    requires
        chars@ == content@,
        lo <= hi <= chars.len(),
    ensures
        match parse_line(chars@.subrange(lo as int, hi as int)) {
            Some((k, v)) => r matches Some(e) && e.0@ == k && e.1@ == v,
            None => r is None,
        },
{
    let ghost line = chars@.subrange(lo as int, hi as int);
    let (a, b) = trim_bounds(chars, lo, hi);
    let ghost t = trim(line);
    assert(t =~= chars@.subrange(a as int, b as int));
    if a == b || chars[a] == '#' {
        return None;
    }
    let i = find_char(chars, a, b, ':');
    if i == b {
        return None;
    }
    let ghost rest = t.skip(i - a + 1);
    assert(rest =~= chars@.subrange(i + 1, b as int));
    let j = find_char(chars, i + 1, b, ':');
    if j == b {
        return None;
    }
    assert(t.take(i - a) =~= chars@.subrange(a as int, i as int));
    assert(rest.take(j - i - 1) =~= chars@.subrange(i + 1, j as int));
    assert(rest.skip(j - i) =~= chars@.subrange(j + 1, b as int));
    let key = to_lowercase(content.substring_char(a, i));
    if j == i + 2 && chars[i + 1] == 'i' {
        assert(chars@.subrange(i + 1, j as int) =~= seq!['i']);
        match parse_i64_in(chars, j + 1, b) {
            Some(v) => Some((key, RdpValue::Integer(v))),
            None => None,
        }
    } else if j == i + 2 && chars[i + 1] == 's' {
        assert(chars@.subrange(i + 1, j as int) =~= seq!['s']);
        Some((key, RdpValue::String(String::from_str(content.substring_char(j + 1, b)))))
    } else {
        assert(chars@.subrange(i + 1, j as int) != seq!['i']) by {
            if chars@.subrange(i + 1, j as int) == seq!['i'] {
                assert(chars@.subrange(i + 1, j as int)[0] == chars@[i + 1]);
            }
        }
        assert(chars@.subrange(i + 1, j as int) != seq!['s']) by {
            if chars@.subrange(i + 1, j as int) == seq!['s'] {
                assert(chars@.subrange(i + 1, j as int)[0] == chars@[i + 1]);
            }
        }
        None
    }
}

} // verus!
