//! The registry store's file format: rendering a registry to text and
//! parsing it back. The format is a fixed table layout — one
//! `[[servers]]` block per record, each field on its own line as a quoted
//! string in which `\` and `"` are escaped — and parsing is proved to
//! invert rendering for every registry.

use vstd::prelude::*;
use crate::registry::{Config, Server, ServerView, views_of};
use crate::text::{chars_of, push_str_chars, string_from_chars};

verus! {

/// Failure of the registry store: the file's contents do not parse.
#[derive(Clone, Copy, Debug, PartialEq, Eq, Structural)]
pub enum StoreError {
    Malformed,
}

/// The block header that opens each record.
pub open spec fn doc_header() -> Seq<char> {
    "[[servers]]\n"@
}

/// The opening of the `name` line, up to and including the opening quote.
pub open spec fn key_name() -> Seq<char> {
    "name = \""@
}

/// The opening of the `path` line.
pub open spec fn key_path() -> Seq<char> {
    "path = \""@
}

/// The opening of the `server_type` line.
pub open spec fn key_type() -> Seq<char> {
    "server_type = \""@
}

/// The opening of the `version` line.
pub open spec fn key_version() -> Seq<char> {
    "version = \""@
}

/// How one character is written inside a quoted value: `\` and `"` get a
/// backslash before them, every other character stands as itself.
pub open spec fn esc_char(c: char) -> Seq<char> {
    if c == '\\' || c == '"' {
        seq!['\\', c]
    } else {
        seq![c]
    }
}

/// A value with its escapes applied.
pub open spec fn spec_escape(s: Seq<char>) -> Seq<char>
    decreases s.len(),
{
    if s.len() == 0 {
        Seq::empty()
    } else {
        esc_char(s[0]) + spec_escape(s.drop_first())
    }
}

/// One rendered line: key, escaped value, closing quote, newline.
pub open spec fn spec_line(key: Seq<char>, v: Seq<char>) -> Seq<char> {
    key + spec_escape(v) + seq!['"', '\n']
}

/// One rendered record: header and its four field lines.
pub open spec fn spec_encode_record(r: ServerView) -> Seq<char> {
    doc_header() + spec_line(key_name(), r.name) + spec_line(key_path(), r.path) + spec_line(
        key_type(),
        r.server_type,
    ) + spec_line(key_version(), r.version)
}

/// The whole rendered document: records in order, nothing else.
pub open spec fn spec_encode(rs: Seq<ServerView>) -> Seq<char>
    decreases rs.len(),
{
    if rs.len() == 0 {
        Seq::empty()
    } else {
        spec_encode_record(rs[0]) + spec_encode(rs.drop_first())
    }
}

/// Reads a quoted value from the start of `s` (the opening quote already
/// consumed) up to and including the closing quote: the unescaped content
/// and how many characters were consumed.
pub open spec fn spec_scan_string(s: Seq<char>) -> Option<(Seq<char>, int)>
    decreases s.len(),
{
    if s.len() == 0 {
        None
    } else if s[0] == '"' {
        Some((Seq::empty(), 1))
    } else if s[0] == '\\' {
        if s.len() >= 2 && (s[1] == '\\' || s[1] == '"') {
            match spec_scan_string(s.skip(2)) {
                Some(p) => Some((seq![s[1]] + p.0, p.1 + 2)),
                None => None,
            }
        } else {
            None
        }
    } else {
        match spec_scan_string(s.drop_first()) {
            Some(p) => Some((seq![s[0]] + p.0, p.1 + 1)),
            None => None,
        }
    }
}

/// `p` stands at the front of `s`.
pub open spec fn spec_prefix(s: Seq<char>, p: Seq<char>) -> bool {
    s.len() >= p.len() && s.subrange(0, p.len() as int) == p
}

/// Reads one field line from the start of `s`: the key and opening quote,
/// the quoted value, then a newline.
pub open spec fn spec_parse_field(s: Seq<char>, key: Seq<char>) -> Option<(Seq<char>, int)> {
    if spec_prefix(s, key) {
        match spec_scan_string(s.skip(key.len() as int)) {
            Some(p) => {
                let end = key.len() + p.1;
                if end < s.len() && s[end] == '\n' {
                    Some((p.0, end + 1))
                } else {
                    None
                }
            },
            None => None,
        }
    } else {
        None
    }
}

/// Reads one record from the start of `s`: the header and the four field
/// lines, in their fixed order.
pub open spec fn spec_parse_record(s: Seq<char>) -> Option<(ServerView, int)> {
    if spec_prefix(s, doc_header()) {
        let s1 = s.skip(doc_header().len() as int);
        match spec_parse_field(s1, key_name()) {
            Some(f1) => {
                let s2 = s1.skip(f1.1);
                match spec_parse_field(s2, key_path()) {
                    Some(f2) => {
                        let s3 = s2.skip(f2.1);
                        match spec_parse_field(s3, key_type()) {
                            Some(f3) => {
                                let s4 = s3.skip(f3.1);
                                match spec_parse_field(s4, key_version()) {
                                    Some(f4) => Some(
                                        (
                                            ServerView {
                                                name: f1.0,
                                                path: f2.0,
                                                server_type: f3.0,
                                                version: f4.0,
                                            },
                                            doc_header().len() + f1.1 + f2.1 + f3.1 + f4.1,
                                        ),
                                    ),
                                    None => None,
                                }
                            },
                            None => None,
                        }
                    },
                    None => None,
                }
            },
            None => None,
        }
    } else {
        None
    }
}

/// Parses a whole document: a sequence of records covering all of `s`.
pub open spec fn spec_parse(s: Seq<char>) -> Option<Seq<ServerView>>
    decreases s.len(),
{
    if s.len() == 0 {
        Some(Seq::empty())
    } else {
        match spec_parse_record(s) {
            Some(p) => if 0 < p.1 <= s.len() {
                match spec_parse(s.skip(p.1)) {
                    Some(rest) => Some(seq![p.0] + rest),
                    None => None,
                }
            } else {
                None
            },
            None => None,
        }
    }
}

proof fn lemma_scan_escape(v: Seq<char>, rest: Seq<char>)
    ensures
        spec_scan_string(spec_escape(v) + seq!['"'] + rest) == Some(
            (v, spec_escape(v).len() + 1 as int),
        ),
    decreases v.len(),
{
    let s = spec_escape(v) + seq!['"'] + rest;
    if v.len() == 0 {
        assert(s =~= seq!['"'] + rest);
        assert(s[0] == '"');
        assert(v =~= Seq::<char>::empty());
    } else {
        let c = v[0];
        let tail = v.drop_first();
        lemma_scan_escape(tail, rest);
        let st = spec_escape(tail) + seq!['"'] + rest;
        if c == '\\' || c == '"' {
            assert(spec_escape(v) =~= seq!['\\', c] + spec_escape(tail));
            assert(s =~= seq!['\\', c] + st);
            assert(s[0] == '\\');
            assert(s[1] == c);
            assert(s.len() >= 2);
            assert(s.skip(2) =~= st);
            assert(seq![s[1]] + tail =~= v);
            assert(spec_escape(v).len() == 2 + spec_escape(tail).len());
        } else {
            assert(spec_escape(v) =~= seq![c] + spec_escape(tail));
            assert(s =~= seq![c] + st);
            assert(s[0] == c);
            assert(s.drop_first() =~= st);
            assert(seq![s[0]] + tail =~= v);
            assert(spec_escape(v).len() == 1 + spec_escape(tail).len());
        }
    }
}

proof fn lemma_parse_field(key: Seq<char>, v: Seq<char>, rest: Seq<char>)
    ensures
        spec_parse_field(spec_line(key, v) + rest, key) == Some((v, spec_line(key, v).len() as int)),
{
    let s = spec_line(key, v) + rest;
    let e = spec_escape(v);
    assert(s =~= key + (e + seq!['"'] + (seq!['\n'] + rest)));
    assert(s.subrange(0, key.len() as int) =~= key);
    assert(s.len() >= key.len());
    assert(spec_prefix(s, key));
    assert(s.skip(key.len() as int) =~= e + seq!['"'] + (seq!['\n'] + rest));
    lemma_scan_escape(v, seq!['\n'] + rest);
    let end = key.len() + e.len() + 1;
    assert(s[end as int] == '\n');
    assert(end < s.len());
    assert(spec_line(key, v).len() == end + 1);
}

proof fn lemma_parse_record(r: ServerView, rest: Seq<char>)
    ensures
        spec_parse_record(spec_encode_record(r) + rest) == Some(
            (r, spec_encode_record(r).len() as int),
        ),
{
    let s = spec_encode_record(r) + rest;
    let l1 = spec_line(key_name(), r.name);
    let l2 = spec_line(key_path(), r.path);
    let l3 = spec_line(key_type(), r.server_type);
    let l4 = spec_line(key_version(), r.version);
    let h = doc_header();
    assert(s =~= h + (l1 + (l2 + (l3 + (l4 + rest)))));
    assert(s.subrange(0, h.len() as int) =~= h);
    assert(spec_prefix(s, doc_header()));
    let s1 = s.skip(h.len() as int);
    assert(s1 =~= l1 + (l2 + (l3 + (l4 + rest))));
    lemma_parse_field(key_name(), r.name, l2 + (l3 + (l4 + rest)));
    let s2 = s1.skip(l1.len() as int);
    assert(s2 =~= l2 + (l3 + (l4 + rest)));
    lemma_parse_field(key_path(), r.path, l3 + (l4 + rest));
    let s3 = s2.skip(l2.len() as int);
    assert(s3 =~= l3 + (l4 + rest));
    lemma_parse_field(key_type(), r.server_type, l4 + rest);
    let s4 = s3.skip(l3.len() as int);
    assert(s4 =~= l4 + rest);
    lemma_parse_field(key_version(), r.version, rest);
    assert(ServerView {
        name: r.name,
        path: r.path,
        server_type: r.server_type,
        version: r.version,
    } == r);
    assert(spec_encode_record(r).len() == h.len() + l1.len() + l2.len() + l3.len() + l4.len());
}

/// Saving and loading round-trip: parsing a rendered registry gives back
/// exactly the records that were rendered, for every registry.
pub proof fn lemma_render_parse_round_trip(rs: Seq<ServerView>)
    ensures
        spec_parse(spec_encode(rs)) == Some(rs),
    decreases rs.len(),
{
    reveal_strlit("[[servers]]\n");
    if rs.len() == 0 {
        assert(spec_encode(rs).len() == 0);
        assert(spec_parse(spec_encode(rs)) == Some(Seq::<ServerView>::empty()));
        assert(rs =~= Seq::<ServerView>::empty());
    } else {
        let r = rs[0];
        let tail = rs.drop_first();
        let s = spec_encode(rs);
        let n = spec_encode_record(r).len() as int;
        lemma_parse_record(r, spec_encode(tail));
        assert(doc_header().len() == 12);
        assert(n >= 12);
        assert(s.len() == n + spec_encode(tail).len());
        assert(s =~= spec_encode_record(r) + spec_encode(tail));
        assert(s.len() > 0);
        assert(s.skip(n) =~= spec_encode(tail));
        lemma_render_parse_round_trip(tail);
        assert(seq![r] + tail =~= rs);
    }
}

proof fn lemma_escape_app(a: Seq<char>, b: Seq<char>)
    ensures
        spec_escape(a + b) == spec_escape(a) + spec_escape(b),
    decreases a.len(),
{
    if a.len() == 0 {
        assert(a + b =~= b);
        assert(spec_escape(a) =~= Seq::<char>::empty());
        assert(spec_escape(a) + spec_escape(b) =~= spec_escape(b));
    } else {
        assert((a + b)[0] == a[0]);
        assert((a + b).drop_first() =~= a.drop_first() + b);
        lemma_escape_app(a.drop_first(), b);
        assert(esc_char(a[0]) + (spec_escape(a.drop_first()) + spec_escape(b)) =~= (esc_char(a[0])
            + spec_escape(a.drop_first())) + spec_escape(b));
        assert((a + b).len() != 0);
    }
}

proof fn lemma_escape_one(c: char)
    ensures
        spec_escape(seq![c]) == esc_char(c),
{
    assert(seq![c].drop_first().len() == 0);
    assert(spec_escape(seq![c].drop_first()) == Seq::<char>::empty());
    assert(esc_char(c) + Seq::<char>::empty() =~= esc_char(c));
}

proof fn lemma_encode_app(a: Seq<ServerView>, b: Seq<ServerView>)
    ensures
        spec_encode(a + b) == spec_encode(a) + spec_encode(b),
    decreases a.len(),
{
    if a.len() == 0 {
        assert(a + b =~= b);
        assert(spec_encode(a) =~= Seq::<char>::empty());
        assert(spec_encode(a) + spec_encode(b) =~= spec_encode(b));
    } else {
        assert((a + b)[0] == a[0]);
        assert((a + b).drop_first() =~= a.drop_first() + b);
        lemma_encode_app(a.drop_first(), b);
        assert(spec_encode_record(a[0]) + (spec_encode(a.drop_first()) + spec_encode(b)) =~= (
        spec_encode_record(a[0]) + spec_encode(a.drop_first())) + spec_encode(b));
        assert((a + b).len() != 0);
    }
}

proof fn lemma_encode_one(r: ServerView)
    ensures
        spec_encode(seq![r]) == spec_encode_record(r),
{
    assert(seq![r].drop_first().len() == 0);
    assert(spec_encode(seq![r].drop_first()) == Seq::<char>::empty());
    assert(spec_encode_record(r) + Seq::<char>::empty() =~= spec_encode_record(r));
}

fn push_escaped(out: &mut Vec<char>, s: &str)
    ensures
        final(out)@ == old(out)@ + spec_escape(s@),
{
    let cs = chars_of(s);
    let n = cs.len();
    let mut i: usize = 0;
    proof {
        assert(s@.subrange(0, 0).len() == 0);
        assert(spec_escape(s@.subrange(0, 0)) == Seq::<char>::empty());
        assert(out@ =~= old(out)@ + spec_escape(s@.subrange(0, 0)));
    }
    while i < n
        invariant
            cs@ == s@,
            n == cs@.len(),
            i <= n,
            out@ == old(out)@ + spec_escape(s@.subrange(0, i as int)),
        decreases n - i,
    {
        let ghost prev = out@;
        let c = cs[i];
        proof {
            assert(s@.subrange(0, i as int + 1) =~= s@.subrange(0, i as int) + seq![s@[i as int]]);
            lemma_escape_app(s@.subrange(0, i as int), seq![s@[i as int]]);
            lemma_escape_one(s@[i as int]);
        }
        if c == '\\' || c == '"' {
            out.push('\\');
            out.push(c);
            proof {
                assert(out@ =~= prev + esc_char(s@[i as int]));
            }
        } else {
            out.push(c);
            proof {
                assert(out@ =~= prev + esc_char(s@[i as int]));
            }
        }
        i += 1;
        proof {
            assert(out@ =~= old(out)@ + spec_escape(s@.subrange(0, i as int)));
        }
    }
    proof {
        assert(s@.subrange(0, n as int) =~= s@);
    }
}

fn push_line(out: &mut Vec<char>, key: &str, value: &str)
    ensures
        final(out)@ == old(out)@ + spec_line(key@, value@),
{
    push_str_chars(out, key);
    push_escaped(out, value);
    out.push('"');
    out.push('\n');
    proof {
        assert(out@ =~= old(out)@ + (key@ + spec_escape(value@) + seq!['"', '\n']));
    }
}

fn push_record(out: &mut Vec<char>, s: &Server)
    ensures
        final(out)@ == old(out)@ + spec_encode_record(s@),
{
    push_str_chars(out, "[[servers]]\n");
    push_line(out, "name = \"", s.name.as_str());
    push_line(out, "path = \"", s.path.as_str());
    push_line(out, "server_type = \"", s.server_type.as_str());
    push_line(out, "version = \"", s.version.as_str());
    proof {
        assert(out@ =~= old(out)@ + spec_encode_record(s@));
    }
}

impl Config {
    /// Renders the registry as the store's file text.
    pub fn render(&self) -> (s: String)
        ensures
            s@ == spec_encode(self@),
    {
        let mut out: Vec<char> = Vec::new();
        let n = self.servers.len();
        let mut i: usize = 0;
        proof {
            assert(self@.take(0).len() == 0);
            assert(spec_encode(self@.take(0)) == Seq::<char>::empty());
            assert(out@ =~= spec_encode(self@.take(0)));
        }
        while i < n
            invariant
                n == self.servers@.len(),
                i <= n,
                out@ == spec_encode(self@.take(i as int)),
            decreases n - i,
        {
            proof {
                assert(self@.take(i as int + 1) =~= self@.take(i as int) + seq![self@[i as int]]);
                lemma_encode_app(self@.take(i as int), seq![self@[i as int]]);
                lemma_encode_one(self@[i as int]);
                assert(self@[i as int] == self.servers@[i as int]@);
            }
            push_record(&mut out, &self.servers[i]);
            proof {
                assert(out@ =~= spec_encode(self@.take(i as int + 1)));
            }
            i += 1;
        }
        proof {
            assert(self@.take(n as int) =~= self@);
        }
        string_from_chars(&out)
    }
}

/// The scan result extended on the left by already-read content and an
/// already-consumed count.
pub open spec fn scan_extend(prefix: Seq<char>, k: int, r: Option<(Seq<char>, int)>) -> Option<
    (Seq<char>, int),
> {
    match r {
        Some(p) => Some((prefix + p.0, k + p.1)),
        None => None,
    }
}

fn scan_string_at(cs: &Vec<char>, start: usize) -> (r: Option<(Vec<char>, usize)>)
    requires
        start <= cs@.len(),
    ensures
        match r {
            Some(p) => spec_scan_string(cs@.skip(start as int)) == Some((p.0@, p.1 as int))
                && start + p.1 <= cs@.len() && p.1 >= 1,
            None => spec_scan_string(cs@.skip(start as int)) is None,
        },
{
    let mut out: Vec<char> = Vec::new();
    let mut i: usize = start;
    proof {
        if spec_scan_string(cs@.skip(start as int)) is Some {
            let p = spec_scan_string(cs@.skip(start as int))->Some_0;
            assert(out@ + p.0 =~= p.0);
        }
    }
    loop
        invariant
            start <= i <= cs@.len(),
            spec_scan_string(cs@.skip(start as int)) == scan_extend(
                out@,
                i - start,
                spec_scan_string(cs@.skip(i as int)),
            ),
        decreases cs@.len() - i,
    {
        let ghost rem = cs@.skip(i as int);
        if i == cs.len() {
            proof {
                assert(rem.len() == 0);
            }
            return None;
        }
        proof {
            assert(rem[0] == cs@[i as int]);
        }
        let c = cs[i];
        if c == '"' {
            proof {
                assert(spec_scan_string(rem) == Some((Seq::<char>::empty(), 1int)));
                assert(out@ + Seq::<char>::empty() =~= out@);
            }
            return Some((out, i + 1 - start));
        } else if c == '\\' {
            if i + 1 < cs.len() {
                proof {
                    assert(rem.len() >= 2);
                    assert(rem[1] == cs@[i as int + 1]);
                }
                let c2 = cs[i + 1];
                if c2 == '\\' || c2 == '"' {
                    let ghost prev = out@;
                    proof {
                        assert(rem.skip(2) =~= cs@.skip(i as int + 2));
                    }
                    out.push(c2);
                    i = i + 2;
                    proof {
                        if spec_scan_string(cs@.skip(i as int)) is Some {
                            let q = spec_scan_string(cs@.skip(i as int))->Some_0;
                            assert(prev + (seq![c2] + q.0) =~= out@ + q.0);
                        }
                    }
                } else {
                    return None;
                }
            } else {
                proof {
                    assert(rem.len() == 1);
                }
                return None;
            }
        } else {
            let ghost prev = out@;
            proof {
                assert(rem.drop_first() =~= cs@.skip(i as int + 1));
            }
            out.push(c);
            i = i + 1;
            proof {
                if spec_scan_string(cs@.skip(i as int)) is Some {
                    let q = spec_scan_string(cs@.skip(i as int))->Some_0;
                    assert(prev + (seq![rem[0]] + q.0) =~= out@ + q.0);
                }
            }
        }
    }
}

fn expect_prefix(cs: &Vec<char>, start: usize, p: &str) -> (b: bool)
    requires
        start <= cs@.len(),
    ensures
        b == spec_prefix(cs@.skip(start as int), p@),
        b ==> start + p@.len() <= cs@.len(),
{
    let pc = chars_of(p);
    let m = pc.len();
    let total = cs.len();
    if total - start < m {
        proof {
            assert(cs@.skip(start as int).len() < p@.len());
        }
        return false;
    }
    let mut j: usize = 0;
    while j < m
        invariant
            m == p@.len(),
            start + m <= cs@.len(),
            cs@.len() <= usize::MAX,
            j <= m,
            pc@ == p@,
            forall|k: int| 0 <= k < j ==> cs@[start + k] == p@[k],
        decreases m - j,
    {
        proof {
            assert(cs@.skip(start as int)[j as int] == cs@[start + j as int]);
        }
        if cs[start + j] != pc[j] {
            proof {
                assert(cs@.skip(start as int).subrange(0, m as int)[j as int] == cs@[start
                    + j as int]);
            }
            return false;
        }
        j += 1;
    }
    proof {
        assert(cs@.skip(start as int).subrange(0, m as int) =~= p@);
    }
    true
}

fn parse_field_at(cs: &Vec<char>, start: usize, key: &str) -> (r: Option<(String, usize)>)
    requires
        start <= cs@.len(),
    ensures
        match r {
            Some(p) => spec_parse_field(cs@.skip(start as int), key@) == Some((p.0@, p.1 as int))
                && start + p.1 <= cs@.len() && p.1 >= 1,
            None => spec_parse_field(cs@.skip(start as int), key@) is None,
        },
{
    let ghost s = cs@.skip(start as int);
    let total = cs.len();
    if !expect_prefix(cs, start, key) {
        return None;
    }
    let k = key.unicode_len();
    proof {
        assert(s.skip(k as int) =~= cs@.skip(start as int + k as int));
    }
    match scan_string_at(cs, start + k) {
        None => {
            return None;
        },
        Some(p) => {
            let (content, n) = p;
            let end = start + k + n;
            if end < total {
                proof {
                    assert(s[k as int + n as int] == cs@[end as int]);
                }
                let ch = cs[end];
                if ch == '\n' {
                    let value = string_from_chars(&content);
                    return Some((value, k + n + 1));
                }
                return None;
            }
            proof {
                assert(s.len() == cs@.len() - start);
            }
            return None;
        },
    }
}

fn parse_record_at(cs: &Vec<char>, start: usize) -> (r: Option<(Server, usize)>)
    requires
        start <= cs@.len(),
    ensures
        match r {
            Some(p) => spec_parse_record(cs@.skip(start as int)) == Some((p.0@, p.1 as int))
                && start + p.1 <= cs@.len() && p.1 >= 1,
            None => spec_parse_record(cs@.skip(start as int)) is None,
        },
{
    let ghost s = cs@.skip(start as int);
    if !expect_prefix(cs, start, "[[servers]]\n") {
        return None;
    }
    let h = "[[servers]]\n".unicode_len();
    let ghost s1 = s.skip(doc_header().len() as int);
    proof {
        vstd::std_specs::vec::axiom_spec_len(cs);
        reveal_strlit("[[servers]]\n");
        assert(h as int == doc_header().len());
        assert(s1 =~= cs@.skip(start as int + h as int));
    }
    let e0 = start + h;
    let f1 = match parse_field_at(cs, e0, "name = \"") {
        Some(x) => x,
        None => {
            return None;
        },
    };
    let e1 = e0 + f1.1;
    let ghost s2 = s1.skip(f1.1 as int);
    proof {
        assert(s2 =~= cs@.skip(e1 as int));
    }
    let f2 = match parse_field_at(cs, e1, "path = \"") {
        Some(x) => x,
        None => {
            return None;
        },
    };
    let e2 = e1 + f2.1;
    let ghost s3 = s2.skip(f2.1 as int);
    proof {
        assert(s3 =~= cs@.skip(e2 as int));
    }
    let f3 = match parse_field_at(cs, e2, "server_type = \"") {
        Some(x) => x,
        None => {
            return None;
        },
    };
    let e3 = e2 + f3.1;
    let ghost s4 = s3.skip(f3.1 as int);
    proof {
        assert(s4 =~= cs@.skip(e3 as int));
    }
    let f4 = match parse_field_at(cs, e3, "version = \"") {
        Some(x) => x,
        None => {
            return None;
        },
    };
    let e4 = e3 + f4.1;
    let server = Server { name: f1.0, path: f2.0, server_type: f3.0, version: f4.0 };
    let total = e4 - start;
    proof {
        assert(spec_parse_record(s) == Some((server@, total as int)));
    }
    Some((server, total))
}

/// The parse result extended on the left by records already read.
pub open spec fn parse_extend(prefix: Seq<ServerView>, r: Option<Seq<ServerView>>) -> Option<
    Seq<ServerView>,
> {
    match r {
        Some(t) => Some(prefix + t),
        None => None,
    }
}

impl Config {
    /// Parses the store's file text back into a registry. Fails exactly
    /// when the text is not a rendered registry.
    pub fn parse(text: &str) -> (r: Result<Config, StoreError>)
        ensures
            match r {
                Ok(c) => spec_parse(text@) == Some(c@),
                Err(_) => spec_parse(text@) is None,
            },
    {
        let cs = chars_of(text);
        let mut servers: Vec<Server> = Vec::new();
        let mut pos: usize = 0;
        proof {
            assert(text@.skip(0) =~= text@);
            assert(views_of(servers@) =~= Seq::<ServerView>::empty());
            if spec_parse(text@) is Some {
                let t = spec_parse(text@)->Some_0;
                assert(views_of(servers@) + t =~= t);
            }
        }
        loop
            invariant
                pos <= cs@.len(),
                cs@ == text@,
                spec_parse(text@) == parse_extend(
                    views_of(servers@),
                    spec_parse(text@.skip(pos as int)),
                ),
            decreases cs@.len() - pos,
        {
            if pos == cs.len() {
                proof {
                    assert(text@.skip(pos as int).len() == 0);
                    assert(views_of(servers@) + Seq::<ServerView>::empty() =~= views_of(servers@));
                }
                let c = Config { servers };
                return Ok(c);
            }
            proof {
                assert(text@.skip(pos as int).len() > 0);
            }
            match parse_record_at(&cs, pos) {
                None => {
                    return Err(StoreError::Malformed);
                },
                Some(p) => {
                    let (srv, n) = p;
                    let ghost prefix = views_of(servers@);
                    proof {
                        assert(text@.skip(pos as int).skip(n as int) =~= text@.skip(
                            pos as int + n as int,
                        ));
                        assert(views_of(servers@.push(srv)) =~= prefix.push(srv@));
                        if spec_parse(text@.skip(pos as int + n as int)) is Some {
                            let t = spec_parse(text@.skip(pos as int + n as int))->Some_0;
                            assert(prefix + (seq![srv@] + t) =~= prefix.push(srv@) + t);
                        }
                    }
                    servers.push(srv);
                    pos = pos + n;
                },
            }
        }
    }
}

/// One load of the registry store, given what the file held (`None` when
/// the file did not exist). Returns the loaded registry together with the
/// text that must be written to create the file, when it was missing.
pub fn load_step(existing: Option<&String>) -> (r: Result<(Config, Option<String>), StoreError>)
    ensures
        match existing {
            None => r matches Ok(p) && p.0@ == Seq::<ServerView>::empty() && (p.1 matches Some(doc)
                && doc@ == spec_encode(Seq::<ServerView>::empty())),
            Some(s) => match r {
                Ok(p) => spec_parse(s@) == Some(p.0@) && p.1 is None,
                Err(_) => spec_parse(s@) is None,
            },
        },
{
    match existing {
        None => {
            let c = Config::new();
            let doc = c.render();
            Ok((c, Some(doc)))
        },
        Some(s) => match Config::parse(s.as_str()) {
            Ok(c) => Ok((c, None)),
            Err(e) => Err(e),
        },
    }
}

/// A freshly created store file parses as the empty registry, so loading
/// it again changes nothing: bootstrap is idempotent.
pub proof fn lemma_bootstrap_idempotent()
    ensures
        spec_parse(spec_encode(Seq::<ServerView>::empty())) == Some(Seq::<ServerView>::empty()),
{
    lemma_render_parse_round_trip(Seq::<ServerView>::empty());
}

} // verus!
