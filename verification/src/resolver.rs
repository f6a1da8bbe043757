//! The build resolver: the remote catalog's URLs, and the compute half of
//! listing versions and builds — reading the fetched response body through
//! serde_json. The network calls themselves live outside the library.

use vstd::prelude::*;
use vstd::multiset::Multiset;
use vstd::string::StringExecFns;
use crate::text::{lemma_str_lt_irrefl, lemma_str_lt_trans, spec_str_lt, str_lt};

verus! {

broadcast use vstd::seq_lib::group_to_multiset_ensures, vstd::multiset::group_multiset_axioms;

/// Newest-first: no earlier entry stands lexicographically below a later
/// one.
pub open spec fn spec_sorted_desc(dv: Seq<Seq<char>>) -> bool {
    forall|i: int, j: int| 0 <= i < j < dv.len() ==> !spec_str_lt(dv[i], dv[j])
}

/// Sorts version or build names newest-first, keeping exactly the same
/// entries.
pub fn sort_versions_desc(v: &mut Vec<String>)
    ensures
        final(v)@.len() == old(v)@.len(),
        final(v).deep_view().to_multiset() == old(v).deep_view().to_multiset(),
        spec_sorted_desc(final(v).deep_view()),
{
    let ghost orig = v.deep_view();
    let mut out: Vec<String> = Vec::new();
    proof {
        assert(out.deep_view() =~= Seq::<Seq<char>>::empty());
        assert(out.deep_view().to_multiset().add(orig.to_multiset()) =~= orig.to_multiset());
    }
    while v.len() > 0
        invariant
            out.deep_view().to_multiset().add(v.deep_view().to_multiset()) == orig.to_multiset(),
            out.deep_view().len() + v.deep_view().len() == orig.len(),
            spec_sorted_desc(out.deep_view()),
            forall|k: int, m: int|
                0 <= k < out.deep_view().len() && 0 <= m < v.deep_view().len() ==> !spec_str_lt(
                    out.deep_view()[k],
                    v.deep_view()[m],
                ),
        decreases v@.len(),
    {
        let ghost dv = v.deep_view();
        let ghost odv = out.deep_view();
        let n = v.len();
        let mut best: usize = 0;
        let mut j: usize = 1;
        proof {
            lemma_str_lt_irrefl(dv[0]);
        }
        while j < n
            invariant
                n == v@.len(),
                dv == v.deep_view(),
                best < n,
                1 <= j <= n,
                forall|t: int| 0 <= t < j ==> !spec_str_lt(dv[best as int], dv[t]),
            decreases n - j,
        {
            if str_lt(v[best].as_str(), v[j].as_str()) {
                proof {
                    assert forall|t: int| 0 <= t < j + 1 implies !spec_str_lt(
                        dv[j as int],
                        dv[t],
                    ) by {
                        if t < j {
                            if spec_str_lt(dv[j as int], dv[t]) {
                                lemma_str_lt_trans(dv[best as int], dv[j as int], dv[t]);
                            }
                        } else {
                            lemma_str_lt_irrefl(dv[j as int]);
                        }
                    }
                }
                best = j;
            }
            j += 1;
        }
        let ghost xv = dv[best as int];
        let x = v.remove(best);
        proof {
            assert(x@ == xv);
            assert(v.deep_view() =~= dv.remove(best as int));
            assert(dv.contains(xv));
            assert(dv.to_multiset().count(xv) > 0);
        }
        out.push(x);
        proof {
            assert(out.deep_view() =~= odv.push(xv));
            assert(odv.push(xv).to_multiset() =~= odv.to_multiset().insert(xv));
            assert(dv.remove(best as int).to_multiset() =~= dv.to_multiset().remove(xv));
            assert(odv.to_multiset().insert(xv).add(dv.to_multiset().remove(xv)) =~= odv.to_multiset().add(dv.to_multiset()));
            assert forall|k: int, m: int|
                0 <= k < out.deep_view().len() && 0 <= m < v.deep_view().len()
                implies !spec_str_lt(out.deep_view()[k], v.deep_view()[m]) by {
                let nk = out.deep_view()[k];
                let nm = v.deep_view()[m];
                if m < best {
                    assert(nm == dv[m]);
                } else {
                    assert(nm == dv[m + 1]);
                }
                if k < odv.len() {
                    assert(nk == odv[k]);
                } else {
                    assert(nk == xv);
                }
            }
        }
    }
    proof {
        assert(v.deep_view().len() == 0);
        assert(v.deep_view().to_multiset() =~= Multiset::<Seq<char>>::empty());
        assert(out.deep_view().to_multiset().add(Multiset::<Seq<char>>::empty())
            =~= out.deep_view().to_multiset());
    }
    let sorted = out;
    *v = sorted;
}

/// Failure of the build resolver: the network call failed, the response
/// was not JSON, or it lacks the looked-for field.
#[derive(Clone, Copy, Debug, PartialEq, Eq, Structural)]
pub enum ResolverError {
    Network,
    Malformed,
    MissingField,
}

#[verifier::external_type_specification]
#[verifier::external_body]
pub struct ExJsonValue(serde_json::Value);

#[verifier::external_type_specification]
#[verifier::external_body]
pub struct ExJsonError(serde_json::Error);

/// The JSON document a text parses to, when it is valid JSON: what
/// serde_json::from_str returns for that text.
pub uninterp spec fn spec_json_doc(s: Seq<char>) -> Option<serde_json::Value>;

/// Relies on serde_json::from_str: parses JSON text into a value tree —
/// the same tree for the same text — and fails exactly on text that is
/// not JSON.
#[verifier::external_body]
fn json_from_str(s: &str) -> (r: Result<serde_json::Value, serde_json::Error>)
    ensures
        r matches Ok(doc) ==> spec_json_doc(s@) == Some(doc),
        r is Err ==> spec_json_doc(s@) is None,
{
    serde_json::from_str(s)
}

/// A JSON value's named member, absent unless the value is an object that
/// has it: what serde_json::Value::get returns.
pub uninterp spec fn spec_member(v: serde_json::Value, key: Seq<char>) -> Option<serde_json::Value>;

/// Relies on serde_json::Value::get: the named member when the value is an
/// object that has it, absent otherwise.
#[verifier::external_body]
fn json_get<'a>(v: &'a serde_json::Value, key: &str) -> (r: Option<&'a serde_json::Value>)
    ensures
        r matches Some(m) ==> spec_member(*v, key@) == Some(*m),
        r is None ==> spec_member(*v, key@) is None,
{
    v.get(key)
}

/// A JSON array's elements, absent for every other value: what
/// serde_json::Value::as_array returns.
pub uninterp spec fn spec_array_elems(v: serde_json::Value) -> Option<Seq<serde_json::Value>>;

/// Relies on serde_json::Value::as_array: the elements when the value is
/// an array, absent otherwise.
#[verifier::external_body]
fn json_as_array(v: &serde_json::Value) -> (r: Option<&Vec<serde_json::Value>>)
    ensures
        r matches Some(a) ==> spec_array_elems(*v) == Some(a@),
        r is None ==> spec_array_elems(*v) is None,
{
    v.as_array()
}

/// A JSON string's content, absent for every other value: what
/// serde_json::Value::as_str returns.
pub uninterp spec fn spec_string_content(v: serde_json::Value) -> Option<Seq<char>>;

/// Relies on serde_json::Value::as_str: the string content when the value
/// is a string, absent otherwise.
#[verifier::external_body]
fn json_as_str(v: &serde_json::Value) -> (r: Option<&str>)
    ensures
        r matches Some(c) ==> spec_string_content(*v) == Some(c@),
        r is None ==> spec_string_content(*v) is None,
{
    v.as_str()
}

/// A JSON value rendered back to compact text, the same text for the same
/// value: what serde_json::Value's Display yields.
pub uninterp spec fn spec_rendered(v: serde_json::Value) -> Seq<char>;

/// Relies on serde_json::Value's Display implementation through
/// ToString: the value rendered back as compact JSON text.
#[verifier::external_body]
fn json_render(v: &serde_json::Value) -> (r: String)
    ensures
        r@ == spec_rendered(*v),
{
    v.to_string()
}

/// The elements of a catalog response's named field: the body parsed as
/// JSON, its named member taken as an array. Absent when the body is not
/// JSON, the member is missing, or the member is not an array.
pub open spec fn spec_field_elems(s: Seq<char>, key: Seq<char>) -> Option<Seq<serde_json::Value>> {
    match spec_json_doc(s) {
        Some(doc) => match spec_member(doc, key) {
            Some(f) => spec_array_elems(f),
            None => None,
        },
        None => None,
    }
}

/// The string a version entry contributes to the listing: its string
/// content, or the empty string for an entry that is not a string.
pub open spec fn spec_item_string(v: serde_json::Value) -> Seq<char> {
    match spec_string_content(v) {
        Some(c) => c,
        None => Seq::empty(),
    }
}

/// Handle on one project of the remote build catalog, named for the
/// project it queries and the directory it installs into.
pub struct ServerManager {
    project_name: String,
    folder_name: String,
}

/// The fixed address under which the catalog lists a project.
pub open spec fn spec_project_url(project: Seq<char>) -> Seq<char> {
    "https://papermc.io/api/v2/projects/"@ + project
}

/// The address under which the catalog lists one version's builds.
pub open spec fn spec_builds_url(project: Seq<char>, version: Seq<char>) -> Seq<char> {
    spec_project_url(project) + "/versions/"@ + version
}

/// The download address of one build's jar, from the fixed template.
pub open spec fn spec_download_url(project: Seq<char>, version: Seq<char>, build: Seq<char>) -> Seq<
    char,
> {
    spec_builds_url(project, version) + "/builds/"@ + build + "/downloads/paper-"@ + version + "-"@
        + build + ".jar"@
}

impl ServerManager {
    /// The queried project's name.
    pub closed spec fn project(&self) -> Seq<char> {
        self.project_name@
    }

    /// The installation directory this manager was made for.
    pub closed spec fn folder(&self) -> Seq<char> {
        self.folder_name@
    }

    /// A manager for one project and installation directory.
    pub fn new(project_name: &str, folder_name: &str) -> (m: ServerManager)
        ensures
            m.project() == project_name@,
            m.folder() == folder_name@,
    {
        ServerManager { project_name: project_name.to_owned(), folder_name: folder_name.to_owned() }
    }

    /// The catalog address that lists this project's versions.
    pub fn project_url(&self) -> (r: String)
        ensures
            r@ == spec_project_url(self.project()),
    {
        let mut s = String::new();
        s.append("https://papermc.io/api/v2/projects/");
        s.append(self.project_name.as_str());
        proof {
            assert(s@ =~= spec_project_url(self.project()));
        }
        s
    }

    /// The catalog address that lists one version's builds.
    pub fn builds_url(&self, version: &str) -> (r: String)
        ensures
            r@ == spec_builds_url(self.project(), version@),
    {
        let mut s = self.project_url();
        s.append("/versions/");
        s.append(version);
        proof {
            assert(s@ =~= spec_builds_url(self.project(), version@));
        }
        s
    }

    /// The download address of one build's jar.
    pub fn construct_download_url(&self, version: &str, build: &str) -> (r: String)
        ensures
            r@ == spec_download_url(self.project(), version@, build@),
    {
        let mut s = self.builds_url(version);
        s.append("/builds/");
        s.append(build);
        s.append("/downloads/paper-");
        s.append(version);
        s.append("-");
        s.append(build);
        s.append(".jar");
        proof {
            assert(s@ =~= spec_download_url(self.project(), version@, build@));
        }
        s
    }

    /// The compute half of listing versions: reads a fetched catalog
    /// response and returns its `versions` field's entries as strings, in
    /// the service's order. Fails exactly when the body is not JSON
    /// (`Malformed`) or lacks an array `versions` field (`MissingField`).
    pub fn extract_versions(body: &str) -> (r: Result<Vec<String>, ResolverError>)
        ensures
            match r {
                Ok(out) => {
                    &&& spec_field_elems(body@, "versions"@) matches Some(elems)
                    &&& out@.len() == elems.len()
                    &&& forall|i: int|
                        0 <= i < elems.len() ==> out@[i]@ == spec_item_string(#[trigger] elems[i])
                },
                Err(e) => match e {
                    ResolverError::Malformed => spec_json_doc(body@) is None,
                    ResolverError::MissingField => spec_json_doc(body@) is Some
                        && spec_field_elems(body@, "versions"@) is None,
                    ResolverError::Network => false,
                },
            },
    {
        match json_from_str(body) {
            Err(_) => Err(ResolverError::Malformed),
            Ok(v) => match json_get(&v, "versions") {
                None => Err(ResolverError::MissingField),
                Some(field) => match json_as_array(field) {
                    None => Err(ResolverError::MissingField),
                    Some(arr) => Ok(Self::string_items(arr)),
                },
            },
        }
    }

    /// The compute half of listing builds: reads a fetched catalog
    /// response and returns its `builds` field's entries, each rendered
    /// back to text, in the service's order. Fails exactly when the body
    /// is not JSON (`Malformed`) or lacks an array `builds` field
    /// (`MissingField`).
    pub fn extract_builds(body: &str) -> (r: Result<Vec<String>, ResolverError>)
        ensures
            match r {
                Ok(out) => {
                    &&& spec_field_elems(body@, "builds"@) matches Some(elems)
                    &&& out@.len() == elems.len()
                    &&& forall|i: int|
                        0 <= i < elems.len() ==> out@[i]@ == spec_rendered(#[trigger] elems[i])
                },
                Err(e) => match e {
                    ResolverError::Malformed => spec_json_doc(body@) is None,
                    ResolverError::MissingField => spec_json_doc(body@) is Some
                        && spec_field_elems(body@, "builds"@) is None,
                    ResolverError::Network => false,
                },
            },
    {
        match json_from_str(body) {
            Err(_) => Err(ResolverError::Malformed),
            Ok(v) => match json_get(&v, "builds") {
                None => Err(ResolverError::MissingField),
                Some(field) => match json_as_array(field) {
                    None => Err(ResolverError::MissingField),
                    Some(arr) => Ok(Self::rendered_items(arr)),
                },
            },
        }
    }

    /// One string per array element, in order: its string content, or the
    /// empty string for an element that is not a string.
    pub fn string_items(arr: &Vec<serde_json::Value>) -> (r: Vec<String>)
        ensures
            r@.len() == arr@.len(),
            forall|i: int|
                0 <= i < arr@.len() ==> r@[i]@ == spec_item_string(#[trigger] arr@[i]),
    {
        let n = arr.len();
        let mut r: Vec<String> = Vec::new();
        let mut i: usize = 0;
        while i < n
            invariant
                n == arr@.len(),
                i <= n,
                r@.len() == i,
                forall|k: int| 0 <= k < i ==> r@[k]@ == spec_item_string(#[trigger] arr@[k]),
            decreases n - i,
        {
            match json_as_str(&arr[i]) {
                Some(s) => r.push(s.to_owned()),
                None => r.push(String::new()),
            }
            i += 1;
        }
        r
    }

    /// One string per array element, in order: the element rendered back
    /// to text.
    pub fn rendered_items(arr: &Vec<serde_json::Value>) -> (r: Vec<String>)
        ensures
            r@.len() == arr@.len(),
            forall|i: int| 0 <= i < arr@.len() ==> r@[i]@ == spec_rendered(#[trigger] arr@[i]),
    {
        let n = arr.len();
        let mut r: Vec<String> = Vec::new();
        let mut i: usize = 0;
        while i < n
            invariant
                n == arr@.len(),
                i <= n,
                r@.len() == i,
                forall|k: int| 0 <= k < i ==> r@[k]@ == spec_rendered(#[trigger] arr@[k]),
            decreases n - i,
        {
            r.push(json_render(&arr[i]));
            i += 1;
        }
        r
    }
}

} // verus!
