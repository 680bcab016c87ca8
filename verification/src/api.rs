//! Kubernetes API group descriptors and the pure lookup logic of the schema
//! discovery client.
//!
//! The network transport of the discovery client lives outside this crate;
//! here are the value types it produces and the path/name computations it
//! relies on.

use vstd::prelude::*;
use vstd::string::StringExecFns;

verus! {

/// A Kubernetes API group: the unnamed core group, or a named group, each
/// with a version string.
#[derive(Debug, Clone)]
pub enum ApiGroup {
    Core(String),
    Named(String, String),
}

/// How an `apiVersion` scalar maps to an [`ApiGroup`]: `v1` is the core
/// group; exactly one slash splits into group and version; anything else is a
/// named group with the default version `v1`.
pub open spec fn api_group_matches(g: ApiGroup, s: Seq<char>) -> bool {
    if s == seq!['v', '1'] {
        g matches ApiGroup::Core(v) && v@ == s
    } else if count_char(s, '/') == 1 {
        g matches ApiGroup::Named(n, v) && n@ == s.take(first_char_at(s, '/')) && v@ == s.skip(
            first_char_at(s, '/') + 1,
        )
    } else {
        g matches ApiGroup::Named(n, v) && n@ == s && v@ == seq!['v', '1']
    }
}

/// Occurrences of `c` in `s`.
pub open spec fn count_char(s: Seq<char>, c: char) -> int
    decreases s.len(),
{
    if s.len() == 0 {
        0
    } else {
        count_char(s.drop_last(), c) + (if s.last() == c {
            1int
        } else {
            0int
        })
    }
}

/// Index of the first occurrence of `c` in `s`; the length if there is none.
pub open spec fn first_char_at(s: Seq<char>, c: char) -> int
    decreases s.len(),
{
    if s.len() == 0 {
        0
    } else if s[0] == c {
        0
    } else {
        1 + first_char_at(s.drop_first(), c)
    }
}

impl ApiGroup {
    /// The group as `group/version` text, the core group spelled `core`.
    pub fn display_text(&self) -> (r: String)
        ensures
            match self {
                ApiGroup::Core(v) => r@ == "core/"@ + v@,
                ApiGroup::Named(n, v) => r@ == n@ + "/"@ + v@,
            },
    {
        match self {
            ApiGroup::Core(v) => {
                let mut s = String::from_str("core/");
                s.append(v.as_str());
                s
            },
            ApiGroup::Named(n, v) => {
                let mut s = n.clone();
                s.append("/");
                s.append(v.as_str());
                s
            },
        }
    }

    /// The dotted Kubernetes definition-name prefix for this group.
    pub fn to_kube_group(&self) -> (r: String)
        ensures
            match self {
                ApiGroup::Core(v) => r@ == "io.k8s.api.core."@ + v@,
                ApiGroup::Named(n, v) => r@ == "io.k8s.api."@ + n@ + "."@ + v@,
            },
    {
        match self {
            ApiGroup::Core(v) => {
                let mut s = String::from_str("io.k8s.api.core.");
                s.append(v.as_str());
                s
            },
            ApiGroup::Named(n, v) => {
                let mut s = String::from_str("io.k8s.api.");
                s.append(n.as_str());
                s.append(".");
                s.append(v.as_str());
                s
            },
        }
    }

    /// Parses an `apiVersion` scalar: `v1` is the core group, one slash
    /// separates group and version, anything else names a group with the
    /// default version `v1`.
    pub fn parse_api_version(chars: &Vec<char>) -> (r: ApiGroup)
        ensures
            api_group_matches(r, chars@),
    {
        let n = chars.len();
        if n == 2 && chars[0] == 'v' && chars[1] == '1' {
            proof {
                assert(chars@ =~= seq!['v', '1']);
            }
            let mut v: Vec<char> = Vec::new();
            v.push('v');
            v.push('1');
            proof {
                assert(v@ =~= chars@);
            }
            return ApiGroup::Core(crate::tree::chars_to_string(&v));
        }
        proof {
            assert(chars@ != seq!['v', '1']);
        }
        // count the slashes and remember the first
        let mut slashes: usize = 0;
        let mut first: usize = n;
        for i in 0..n
            invariant
                n == chars@.len(),
                slashes == count_char(chars@.take(i as int), '/'),
                slashes <= i,
                first == (if count_char(chars@.take(i as int), '/') == 0 {
                    n as int
                } else {
                    first_char_at(chars@, '/')
                }),
                first <= n,
                slashes == 0 ==> first == n,
                count_char(chars@.take(i as int), '/') > 0 ==> first < n,
        {
            proof {
                assert(chars@.take(i + 1).drop_last() =~= chars@.take(i as int));
                assert(chars@.take(i + 1).last() == chars@[i as int]);
                lemma_count_char_nonneg(chars@.take(i as int), '/');
            }
            if chars[i] == '/' {
                if slashes == 0 {
                    first = i;
                    proof {
                        lemma_first_char_prefix(chars@, '/', i as int);
                    }
                }
                slashes = slashes + 1;
            }
        }
        proof {
            assert(chars@.take(n as int) =~= chars@);
        }
        if slashes == 1 {
            let mut left: Vec<char> = Vec::new();
            let mut right: Vec<char> = Vec::new();
            for i in 0..first
                invariant
                    n == chars@.len(),
                    first < n,
                    left@ == chars@.take(i as int),
                    i <= first,
            {
                left.push(chars[i]);
                proof {
                    assert(chars@.take(i + 1) =~= chars@.take(i as int).push(chars@[i as int]));
                }
            }
            let mut i: usize = first + 1;
            while i < n
                invariant
                    n == chars@.len(),
                    first < n,
                    first + 1 <= i <= n,
                    right@ == chars@.skip(first + 1).take(i - first - 1),
                decreases n - i,
            {
                right.push(chars[i]);
                proof {
                    assert(chars@.skip(first + 1).take(i - first) =~= chars@.skip(first + 1).take(
                        i - first - 1,
                    ).push(chars@[i as int]));
                }
                i = i + 1;
            }
            proof {
                assert(chars@.skip(first + 1).take(n - first - 1) =~= chars@.skip(first + 1));
            }
            ApiGroup::Named(
                crate::tree::chars_to_string(&left),
                crate::tree::chars_to_string(&right),
            )
        } else {
            let mut v: Vec<char> = Vec::new();
            v.push('v');
            v.push('1');
            proof {
                assert(v@ =~= seq!['v', '1']);
            }
            ApiGroup::Named(
                crate::tree::chars_to_string(chars),
                crate::tree::chars_to_string(&v),
            )
        }
    }
}

pub proof fn lemma_count_char_nonneg(s: Seq<char>, c: char)
    ensures
        0 <= count_char(s, c) <= s.len(),
    decreases s.len(),
{
    if s.len() > 0 {
        lemma_count_char_nonneg(s.drop_last(), c);
    }
}

/// Once a prefix holds no occurrence and position `i` holds one, `i` is the
/// first occurrence in the whole sequence.
proof fn lemma_first_char_prefix(s: Seq<char>, c: char, i: int)
    requires
        0 <= i < s.len(),
        s[i] == c,
        count_char(s.take(i), c) == 0,
    ensures
        first_char_at(s, c) == i,
    decreases i, 1int,
{
    if i == 0 {
    } else {
        assert(s.take(i).take(i - 1) =~= s.take(i - 1));
        lemma_count_take_step(s, c, i);
        assert(s[0] != c) by {
            lemma_count_char_first(s.take(i), c);
        }
        lemma_first_char_prefix_shift(s, c, i);
    }
}

/// Unfolding one step of counting over a prefix.
proof fn lemma_count_take_step(s: Seq<char>, c: char, i: int)
    requires
        1 <= i <= s.len(),
    ensures
        count_char(s.take(i), c) == count_char(s.take(i - 1), c) + (if s[i - 1] == c {
            1int
        } else {
            0int
        }),
{
    assert(s.take(i).drop_last() =~= s.take(i - 1));
    assert(s.take(i).last() == s[i - 1]);
}

/// A zero count over a non-empty prefix means its first element differs.
proof fn lemma_count_char_first(s: Seq<char>, c: char)
    requires
        s.len() > 0,
        count_char(s, c) == 0,
    ensures
        s[0] != c,
    decreases s.len(),
{
    if s.len() == 1 {
        assert(s.drop_last() =~= Seq::<char>::empty());
        assert(count_char(s.drop_last(), c) == 0);
        assert(s.last() == s[0]);
    } else {
        lemma_count_char_nonneg(s.drop_last(), c);
        lemma_count_char_first(s.drop_last(), c);
        assert(s.drop_last()[0] == s[0]);
    }
}

proof fn lemma_first_char_prefix_shift(s: Seq<char>, c: char, i: int)
    requires
        1 <= i < s.len(),
        s[i] == c,
        s[0] != c,
        count_char(s.take(i), c) == 0,
    ensures
        first_char_at(s, c) == i,
    decreases i, 0int,
{
    let rest = s.drop_first();
    assert(rest.take(i - 1) =~= s.take(i).drop_first());
    lemma_count_drop_first(s.take(i), c);
    lemma_count_char_nonneg(s.take(i).drop_first(), c);
    lemma_first_char_prefix(rest, c, i - 1);
}

/// Counting after dropping a non-matching first element.
proof fn lemma_count_drop_first(s: Seq<char>, c: char)
    requires
        s.len() > 0,
        s[0] != c,
    ensures
        count_char(s.drop_first(), c) == count_char(s, c),
    decreases s.len(),
{
    if s.len() == 1 {
        assert(s.drop_first() =~= Seq::<char>::empty());
        assert(count_char(s.drop_first(), c) == 0);
        assert(count_char(s.drop_last(), c) == 0) by {
            assert(s.drop_last() =~= Seq::<char>::empty());
        }
    } else {
        lemma_count_drop_first(s.drop_last(), c);
        assert(s.drop_last()[0] == s[0]);
        assert(s.drop_first().drop_last() =~= s.drop_last().drop_first());
        assert(s.drop_first().last() == s.last());
    }
}


/// Errors of the schema lookup. The discovery client's transport failures
/// (HTTP, kubeconfig, serialization) are wrapped by the caller that owns the
/// transport; these are the failures the lookup logic itself produces.
#[derive(Debug)]
pub enum Error {
    InvalidGroup(String),
    InvalidComponentsTree,
    SpecNotFound(String),
}

impl Error {
    /// A short description of the failure.
    pub fn message(&self) -> (r: String)
        ensures
            match self {
                Error::InvalidGroup(g) => r@ == "Invalid group path "@ + g@,
                Error::InvalidComponentsTree => r@
                    == "All openapi specs require a components attribute"@,
                Error::SpecNotFound(n) => r@ == "Could not find spec for "@ + n@,
            },
    {
        match self {
            Error::InvalidGroup(g) => {
                let mut s = String::from_str("Invalid group path ");
                s.append(g.as_str());
                s
            },
            Error::InvalidComponentsTree => String::from_str(
                "All openapi specs require a components attribute",
            ),
            Error::SpecNotFound(n) => {
                let mut s = String::from_str("Could not find spec for ");
                s.append(n.as_str());
                s
            },
        }
    }
}

/// A dotted query path into a schema: a key and an optional child path.
pub struct QueryPath {
    pub key: String,
    pub child: Option<Box<QueryPath>>,
}

/// The keys of a query path, outermost first.
pub open spec fn qp_view(qp: QueryPath) -> Seq<Seq<char>>
    decreases qp,
{
    seq![qp.key@] + match qp.child {
        Some(c) => qp_view(*c),
        None => Seq::empty(),
    }
}

/// Keys joined with dots.
pub open spec fn dotted(v: Seq<Seq<char>>) -> Seq<char>
    decreases v.len(),
{
    if v.len() == 0 {
        Seq::empty()
    } else if v.len() == 1 {
        v[0]
    } else {
        v[0] + seq!['.'] + dotted(v.drop_first())
    }
}

pub proof fn lemma_qp_view_nonempty(qp: QueryPath)
    ensures
        qp_view(qp).len() >= 1,
        qp_view(qp)[0] == qp.key@,
{
}

impl QueryPath {
    /// A single-key path.
    pub fn new(key: &str) -> (r: QueryPath)
        ensures
            qp_view(r) =~= seq![key@],
    {
        QueryPath { key: key.to_owned(), child: None }
    }

    /// Wraps this path under one more outer key.
    pub fn with_parent(self, parent: &str) -> (r: QueryPath)
        ensures
            qp_view(r) =~= seq![parent@] + qp_view(self),
    {
        QueryPath { key: parent.to_owned(), child: Some(Box::new(self)) }
    }

    /// The dotted rendering of the path.
    pub fn text(&self) -> (r: String)
        ensures
            r@ == dotted(qp_view(*self)),
        decreases *self,
    {
        match &self.child {
            None => {
                proof {
                    assert(qp_view(*self) =~= seq![self.key@]);
                }
                self.key.clone()
            },
            Some(c) => {
                let rest = c.text();
                let mut s = self.key.clone();
                s.append(".");
                s.append(rest.as_str());
                proof {
                    reveal_strlit(".");
                    assert("."@ =~= seq!['.']);
                    lemma_qp_view_nonempty(**c);
                    assert(qp_view(*self) =~= seq![self.key@] + qp_view(**c));
                    assert(qp_view(*self).drop_first() =~= qp_view(**c));
                    assert(qp_view(*self)[0] == self.key@);
                }
                s
            },
        }
    }
}

/// The discovery root document: each API group path with the server-relative
/// URL of its OpenAPI description, in document order.
pub struct RootSpec {
    pub paths: Vec<(String, String)>,
}

/// The path key under which a group's description is listed.
pub open spec fn group_path_key(g: ApiGroup) -> Seq<char> {
    match g {
        ApiGroup::Core(v) => if v@.len() == 0 {
            "api"@
        } else {
            "api/"@ + v@
        },
        ApiGroup::Named(gr, v) => if gr@ == "GROUPS"@ && v@.len() == 0 {
            "apis"@
        } else if v@.len() == 0 {
            "apis/"@ + gr@
        } else {
            "apis/"@ + gr@ + "/"@ + v@
        },
    }
}

impl RootSpec {
    /// Looks up the server-relative URL for a group; when the same path is
    /// listed more than once the last entry wins.
    pub fn get_group_path(&self, group: &ApiGroup) -> (r: Option<&str>)
        ensures
            match r {
                Some(s) => exists|i: int|
                    0 <= i < self.paths@.len() && (#[trigger] self.paths@[i]).0@ == group_path_key(
                        *group,
                    ) && s@ == self.paths@[i].1@ && (forall|j: int|
                        i < j < self.paths@.len() ==> (#[trigger] self.paths@[j]).0@
                            != group_path_key(*group)),
                None => forall|i: int|
                    0 <= i < self.paths@.len() ==> (#[trigger] self.paths@[i]).0@
                        != group_path_key(*group),
            },
    {
        let key: String = match group {
            ApiGroup::Core(v) => {
                if v.as_str().is_empty() {
                    String::from_str("api")
                } else {
                    let mut s = String::from_str("api/");
                    s.append(v.as_str());
                    s
                }
            },
            ApiGroup::Named(gr, v) => {
                let groups_marker = String::from_str("GROUPS");
                if *gr == groups_marker && v.as_str().is_empty() {
                    String::from_str("apis")
                } else if v.as_str().is_empty() {
                    let mut s = String::from_str("apis/");
                    s.append(gr.as_str());
                    s
                } else {
                    let mut s = String::from_str("apis/");
                    s.append(gr.as_str());
                    s.append("/");
                    s.append(v.as_str());
                    s
                }
            },
        };
        let n = self.paths.len();
        let mut i: usize = n;
        while i > 0
            invariant
                n == self.paths@.len(),
                i <= n,
                key@ == group_path_key(*group),
                forall|j: int|
                    i <= j < n ==> (#[trigger] self.paths@[j]).0@ != group_path_key(*group),
            decreases i,
        {
            i = i - 1;
            if self.paths[i].0 == key {
                return Some(self.paths[i].1.as_str());
            }
        }
        None
    }
}

/// One API group's schema catalog: the group and, when the description had a
/// components section, the listed definition names in document order.
pub struct GroupSpec {
    pub group: ApiGroup,
    pub schemas: Option<Vec<String>>,
}

/// The definition name under which a kind is described.
pub open spec fn kube_spec_name(g: ApiGroup, kind: Seq<char>) -> Seq<char> {
    group_prefix(g) + "."@ + kind
}

/// The dotted group prefix of definition names.
pub open spec fn group_prefix(g: ApiGroup) -> Seq<char> {
    match g {
        ApiGroup::Core(v) => "io.k8s.api.core."@ + v@,
        ApiGroup::Named(n, v) => "io.k8s.api."@ + n@ + "."@ + v@,
    }
}

impl GroupSpec {
    pub fn new(group: ApiGroup, schemas: Option<Vec<String>>) -> (r: GroupSpec)
        ensures
            r.group == group,
            r.schemas == schemas,
    {
        GroupSpec { group, schemas }
    }

    /// Finds the schema entry describing `kind` in this group; the query path
    /// selects within the schema and is resolved by the caller holding the
    /// schema bodies.
    pub fn get_kind_path(&self, kind: &str, _path: &QueryPath) -> (r: Result<usize, Error>)
        ensures
            self.schemas is None ==> r == Err::<usize, Error>(Error::InvalidComponentsTree),
            match self.schemas {
                Some(ss) => match r {
                    Ok(idx) => {
                        &&& 0 <= idx < ss@.len()
                        &&& ss@[idx as int]@ == kube_spec_name(self.group, kind@)
                        &&& forall|j: int|
                            0 <= j < idx ==> (#[trigger] ss@[j])@ != kube_spec_name(
                                self.group,
                                kind@,
                            )
                    },
                    Err(e) => {
                        &&& e matches Error::SpecNotFound(s) && s@ == kube_spec_name(
                            self.group,
                            kind@,
                        )
                        &&& forall|j: int|
                            0 <= j < ss@.len() ==> (#[trigger] ss@[j])@ != kube_spec_name(
                                self.group,
                                kind@,
                            )
                    },
                },
                None => true,
            },
    {
        let mut spec_name = self.group.to_kube_group();
        spec_name.append(".");
        spec_name.append(kind);
        match &self.schemas {
            None => Err(Error::InvalidComponentsTree),
            Some(ss) => {
                let n = ss.len();
                for i in 0..n
                    invariant
                        n == ss@.len(),
                        self.schemas == Some(*ss),
                        spec_name@ == kube_spec_name(self.group, kind@),
                        forall|j: int|
                            0 <= j < i ==> (#[trigger] ss@[j])@ != kube_spec_name(
                                self.group,
                                kind@,
                            ),
                {
                    if ss[i] == spec_name {
                        return Ok(i);
                    }
                }
                Err(Error::SpecNotFound(spec_name))
            },
        }
    }
}

} // verus!
