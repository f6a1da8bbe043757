//! The server registry: an ordered list of named server installations,
//! with lookup by name (first match) and removal by name (every match).

use vstd::prelude::*;
use crate::text::{
    push_decimal, push_str_chars, spec_decimal, str_concat, str_eq, string_from_chars,
};

verus! {

/// One tracked server installation.
#[derive(Clone, Debug)]
pub struct Server {
    /// Operator-chosen identifier; intended to be unique, not enforced.
    pub name: String,
    /// Absolute path of the installation directory.
    pub path: String,
    /// Which server project this is, an opaque tag.
    pub server_type: String,
    /// The version string resolved at install time.
    pub version: String,
}

/// The mathematical content of a `Server`: its fields as character sequences.
pub ghost struct ServerView {
    pub name: Seq<char>,
    pub path: Seq<char>,
    pub server_type: Seq<char>,
    pub version: Seq<char>,
}

impl View for Server {
    type V = ServerView;

    open spec fn view(&self) -> ServerView {
        ServerView {
            name: self.name@,
            path: self.path@,
            server_type: self.server_type@,
            version: self.version@,
        }
    }
}

/// The views of a sequence of records, element for element.
pub open spec fn views_of(servers: Seq<Server>) -> Seq<ServerView> {
    Seq::new(servers.len(), |i: int| servers[i]@)
}

/// The registry of tracked servers, insertion order preserved.
#[derive(Debug)]
pub struct Config {
    pub servers: Vec<Server>,
}

impl View for Config {
    type V = Seq<ServerView>;

    open spec fn view(&self) -> Seq<ServerView> {
        views_of(self.servers@)
    }
}

/// The first record of `rs` whose name is `name`, if any.
pub open spec fn spec_find(rs: Seq<ServerView>, name: Seq<char>) -> Option<ServerView>
    decreases rs.len(),
{
    if rs.len() == 0 {
        None
    } else if rs[0].name == name {
        Some(rs[0])
    } else {
        spec_find(rs.drop_first(), name)
    }
}

/// `rs` without every record named `name`, order of the rest preserved.
pub open spec fn spec_remove(rs: Seq<ServerView>, name: Seq<char>) -> Seq<ServerView> {
    rs.filter(|r: ServerView| r.name != name)
}

proof fn lemma_remove_empty(name: Seq<char>)
    ensures
        spec_remove(Seq::<ServerView>::empty(), name) == Seq::<ServerView>::empty(),
{
    reveal(Seq::filter);
    assert(spec_remove(Seq::<ServerView>::empty(), name) =~= Seq::<ServerView>::empty());
}

proof fn lemma_remove_push(rs: Seq<ServerView>, x: ServerView, name: Seq<char>)
    ensures
        x.name != name ==> spec_remove(rs.push(x), name) == spec_remove(rs, name).push(x),
        x.name == name ==> spec_remove(rs.push(x), name) == spec_remove(rs, name),
{
    reveal(Seq::filter);
    assert(rs.push(x).drop_last() =~= rs);
    assert(rs.push(x).last() == x);
}

impl Config {
    /// A registry with no records.
    pub fn new() -> (c: Config)
        ensures
            c@ == Seq::<ServerView>::empty(),
    {
        let c = Config { servers: Vec::new() };
        proof {
            assert(c@ =~= Seq::<ServerView>::empty());
        }
        c
    }

    /// Appends a record at the end of the registry.
    pub fn add_server(&mut self, server: Server)
        ensures
            final(self)@ == old(self)@.push(server@),
    {
        let ghost before = self@;
        let ghost sv = server@;
        self.servers.push(server);
        proof {
            assert(self@ =~= before.push(sv));
        }
    }

    /// The first record whose name equals `name`, if any.
    pub fn get_server<'a>(&'a self, name: &str) -> (r: Option<&'a Server>)
        ensures
            match r {
                Some(s) => spec_find(self@, name@) == Some(s@),
                None => spec_find(self@, name@) is None,
            },
    {
        let n = self.servers.len();
        let mut i: usize = 0;
        proof {
            assert(self@.skip(0) =~= self@);
        }
        while i < n
            invariant
                n == self.servers@.len(),
                i <= n,
                spec_find(self@, name@) == spec_find(self@.skip(i as int), name@),
            decreases n - i,
        {
            proof {
                assert(self@.skip(i as int)[0] == self@[i as int]);
                assert(self@.skip(i as int).drop_first() =~= self@.skip(i as int + 1));
            }
            if str_eq(self.servers[i].name.as_str(), name) {
                let r = &self.servers[i];
                proof {
                    assert(r@ == self@[i as int]);
                }
                return Some(r);
            }
            i += 1;
        }
        proof {
            assert(self@.skip(n as int) =~= Seq::<ServerView>::empty());
        }
        None
    }

    /// Removes every record whose name equals the given server's name.
    pub fn remove_server(&mut self, server: &Server)
        ensures
            final(self)@ == spec_remove(old(self)@, server@.name),
    {
        let ghost before = self@;
        let ghost name = server@.name;
        let n = self.servers.len();
        let mut kept: Vec<Server> = Vec::new();
        let mut i: usize = 0;
        proof {
            assert(before.take(0) =~= Seq::<ServerView>::empty());
            lemma_remove_empty(name);
            assert(views_of(kept@) =~= Seq::<ServerView>::empty());
        }
        while i < n
            invariant
                n == self.servers@.len(),
                i <= n,
                self@ == before,
                name == server@.name,
                views_of(kept@) == spec_remove(before.take(i as int), name),
            decreases n - i,
        {
            let ghost x = before[i as int];
            let ghost kv = views_of(kept@);
            proof {
                assert(before.take(i as int + 1) =~= before.take(i as int).push(x));
                lemma_remove_push(before.take(i as int), x, name);
            }
            let keep = !str_eq(self.servers[i].name.as_str(), server.name.as_str());
            if keep {
                let record = self.servers[i].clone_record();
                proof {
                    assert(record@ == x);
                }
                kept.push(record);
                proof {
                    assert(views_of(kept@) =~= kv.push(x));
                }
            }
            i += 1;
        }
        proof {
            assert(before.take(n as int) =~= before);
        }
        self.servers = kept;
    }
}

/// The lines the listing shows for one record: its number and its fields.
pub open spec fn spec_record_lines(i: nat, r: ServerView) -> Seq<Seq<char>> {
    seq![
        "Server #"@ + spec_decimal(i + 1) + ":"@,
        " -> Name: "@ + r.name,
        " -> Path: "@ + r.path,
        " -> Type: "@ + r.server_type,
        " -> Version: "@ + r.version,
    ]
}

/// The listing's lines from record `i` on.
pub open spec fn spec_display_from(rs: Seq<ServerView>, i: nat) -> Seq<Seq<char>>
    decreases rs.len() - i,
{
    if i >= rs.len() {
        Seq::empty()
    } else {
        spec_record_lines(i, rs[i as int]) + spec_display_from(rs, i + 1)
    }
}

impl Config {
    /// The listing shown for the registry: a numbered five-line block per
    /// record, in registry order.
    pub fn display_lines(&self) -> (r: Vec<String>)
        ensures
            r.deep_view() == spec_display_from(self@, 0),
    {
        let n = self.servers.len();
        let mut out: Vec<String> = Vec::new();
        let mut i: usize = 0;
        proof {
            assert(out.deep_view() =~= Seq::<Seq<char>>::empty());
            assert(Seq::<Seq<char>>::empty() + spec_display_from(self@, 0) =~= spec_display_from(
                self@,
                0,
            ));
        }
        while i < n
            invariant
                n == self.servers@.len(),
                i <= n,
                spec_display_from(self@, 0) == out.deep_view() + spec_display_from(
                    self@,
                    i as nat,
                ),
            decreases n - i,
        {
            let ghost prev = out.deep_view();
            let ghost rv = self@[i as int];
            proof {
                assert(self.servers@[i as int]@ == rv);
            }
            let mut v: Vec<char> = Vec::new();
            push_str_chars(&mut v, "Server #");
            push_decimal(&mut v, i + 1);
            push_str_chars(&mut v, ":");
            let line1 = string_from_chars(&v);
            let line2 = str_concat(" -> Name: ", self.servers[i].name.as_str());
            let line3 = str_concat(" -> Path: ", self.servers[i].path.as_str());
            let line4 = str_concat(" -> Type: ", self.servers[i].server_type.as_str());
            let line5 = str_concat(" -> Version: ", self.servers[i].version.as_str());
            proof {
                assert(line1@ =~= "Server #"@ + spec_decimal(i as nat + 1) + ":"@);
            }
            out.push(line1);
            out.push(line2);
            out.push(line3);
            out.push(line4);
            out.push(line5);
            proof {
                assert(out.deep_view() =~= prev + spec_record_lines(i as nat, rv));
                assert(prev + (spec_record_lines(i as nat, rv) + spec_display_from(
                    self@,
                    i as nat + 1,
                )) =~= (prev + spec_record_lines(i as nat, rv)) + spec_display_from(
                    self@,
                    i as nat + 1,
                ));
            }
            i += 1;
        }
        proof {
            assert(spec_display_from(self@, n as nat) == Seq::<Seq<char>>::empty());
            assert(out.deep_view() + Seq::<Seq<char>>::empty() =~= out.deep_view());
        }
        out
    }
}

impl Server {
    /// A field-for-field copy of the record.
    pub fn clone_record(&self) -> (r: Server)
        ensures
            r@ == self@,
    {
        Server {
            name: self.name.clone(),
            path: self.path.clone(),
            server_type: self.server_type.clone(),
            version: self.version.clone(),
        }
    }
}

/// Removal by name removes every record carrying the name — none is left
/// — and every record with another name survives.
pub proof fn lemma_remove_by_name(rs: Seq<ServerView>, name: Seq<char>)
    ensures
        forall|i: int|
            0 <= i < spec_remove(rs, name).len() ==> #[trigger] spec_remove(rs, name)[i].name
                != name,
        forall|i: int|
            0 <= i < rs.len() && rs[i].name != name ==> spec_remove(rs, name).contains(#[trigger] rs[i]),
    decreases rs.len(),
{
    if rs.len() == 0 {
        lemma_remove_empty(name);
    } else {
        let prefix = rs.drop_last();
        let x = rs.last();
        lemma_remove_by_name(prefix, name);
        lemma_remove_push(prefix, x, name);
        assert(prefix.push(x) =~= rs);
        let before = spec_remove(prefix, name);
        let after = spec_remove(rs, name);
        assert forall|i: int| 0 <= i < rs.len() && rs[i].name != name implies after.contains(
            #[trigger] rs[i],
        ) by {
            if i < rs.len() - 1 {
                assert(prefix[i] == rs[i]);
                assert(before.contains(rs[i]));
                let k = choose|k: int| 0 <= k < before.len() && before[k] == rs[i];
                if x.name != name {
                    assert(after == before.push(x));
                    assert(after[k] == rs[i]);
                } else {
                    assert(after == before);
                }
            } else {
                assert(rs[i] == x);
                assert(after == before.push(x));
                assert(after[after.len() - 1] == x);
            }
        }
    }
}

/// Lookup returns the first inserted record with the queried name: it
/// succeeds exactly when some record carries the name, and the record it
/// returns stands at the least such index.
pub proof fn lemma_find_by_name_first(rs: Seq<ServerView>, name: Seq<char>)
    ensures
        (spec_find(rs, name) is Some) <==> (exists|i: int|
            0 <= i < rs.len() && rs[i].name == name),
        spec_find(rs, name) matches Some(r) ==> (exists|i: int|
            {
                &&& 0 <= i < rs.len()
                &&& rs[i].name == name
                &&& r == rs[i]
                &&& forall|j: int| 0 <= j < i ==> rs[j].name != name
            }),
    decreases rs.len(),
{
    if rs.len() == 0 {
    } else if rs[0].name == name {
        assert(rs[0].name == name && spec_find(rs, name) == Some(rs[0]));
    } else {
        let tail = rs.drop_first();
        lemma_find_by_name_first(tail, name);
        assert forall|i: int| 0 <= i < rs.len() && rs[i].name == name implies exists|k: int|
            0 <= k < tail.len() && tail[k].name == name by {
            assert(tail[i - 1] == rs[i]);
        }
        if spec_find(rs, name) is Some {
            let r = spec_find(rs, name)->Some_0;
            let k = choose|k: int|
                {
                    &&& 0 <= k < tail.len()
                    &&& tail[k].name == name
                    &&& r == tail[k]
                    &&& forall|j: int| 0 <= j < k ==> tail[j].name != name
                };
            assert(rs[k + 1] == tail[k]);
            assert(forall|j: int| 1 <= j < k + 1 ==> rs[j] == tail[j - 1]);
            assert(forall|j: int| 0 <= j < k + 1 ==> rs[j].name != name);
        }
    }
}

} // verus!
