//! The per-directory configuration and its combine operation.

use vstd::prelude::*;
use crate::strmap::StrMap;

verus! {

/// The index setting, as a value: `None` where unset.
pub type IndexModel = Option<Seq<char>>;

/// A configuration as a value: the resolution section (itself holding an
/// optional index name) and the optional map of extra environment entries.
pub type ConfigModel = (Option<IndexModel>, Option<Map<Seq<char>, Seq<char>>>);

/// Configuration for path resolution.
pub struct ResolutionInfo {
    /// The name of the file that stands for a directory, if set.
    pub index: Option<String>,
}

/// The configuration of a directory and of what lies below it.
pub struct WWebS {
    /// The file resolution configuration, if any.
    pub resolution: Option<ResolutionInfo>,
    /// Extra environment variables for every program run at or below here.
    pub env: Option<StrMap>,
}

/// The name of the file that stands for a directory when nothing else is set.
pub open spec fn default_index() -> Seq<char> {
    "index.html"@
}

pub open spec fn opt_view(o: Option<String>) -> Option<Seq<char>> {
    match o {
        Some(s) => Some(s@),
        None => None,
    }
}

/// Combines two index settings: the right one wins where both are set.
pub open spec fn combine_index(a: IndexModel, b: IndexModel) -> IndexModel {
    match b {
        Some(v) => Some(v),
        None => a,
    }
}

/// Combines two optional values: where only one is present it is kept, where
/// both are, `f` joins them.
pub open spec fn combine_opt<A>(a: Option<A>, b: Option<A>, f: spec_fn(A, A) -> A) -> Option<A> {
    match (a, b) {
        (Some(x), None) => Some(x),
        (None, Some(y)) => Some(y),
        (Some(x), Some(y)) => Some(f(x, y)),
        (None, None) => None,
    }
}

/// The combine operation on configurations as values.
pub open spec fn combine_spec(a: ConfigModel, b: ConfigModel) -> ConfigModel {
    (
        combine_opt(a.0, b.0, |x: IndexModel, y: IndexModel| combine_index(x, y)),
        combine_opt(
            a.1,
            b.1,
            |x: Map<Seq<char>, Seq<char>>, y: Map<Seq<char>, Seq<char>>| x.union_prefer_right(y),
        ),
    )
}

/// The index name that a configuration selects.
pub open spec fn index_spec(c: ConfigModel) -> Seq<char> {
    match c.0 {
        Some(Some(i)) => i,
        _ => default_index(),
    }
}

/// The extra environment of a configuration, empty where unset.
pub open spec fn env_map_spec(c: ConfigModel) -> Map<Seq<char>, Seq<char>> {
    match c.1 {
        Some(m) => m,
        None => Map::empty(),
    }
}

impl View for ResolutionInfo {
    type V = IndexModel;

    open spec fn view(&self) -> IndexModel {
        opt_view(self.index)
    }
}

impl View for WWebS {
    type V = ConfigModel;

    open spec fn view(&self) -> ConfigModel {
        (
            match self.resolution {
                Some(r) => Some(r@),
                None => None,
            },
            match self.env {
                Some(m) => Some(m@),
                None => None,
            },
        )
    }
}

fn dup_opt_string(o: &Option<String>) -> (r: Option<String>)
    ensures
        opt_view(r) == opt_view(*o),
{
    match o {
        Some(s) => Some(s.clone()),
        None => None,
    }
}

impl ResolutionInfo {
    /// Combines two settings: the right index wins where both are set.
    pub fn bitand(self, rhs: ResolutionInfo) -> (r: ResolutionInfo)
        ensures
            r@ == combine_index(self@, rhs@),
    {
        match rhs.index {
            Some(v) => ResolutionInfo { index: Some(v) },
            None => ResolutionInfo { index: self.index },
        }
    }

    /// A copy of the setting.
    pub fn duplicate(&self) -> (r: ResolutionInfo)
        ensures
            r@ == self@,
    {
        ResolutionInfo { index: dup_opt_string(&self.index) }
    }
}

impl WWebS {
    /// The configuration that sets nothing.
    pub fn empty() -> (r: WWebS)
        ensures
            r@ == (None::<IndexModel>, None::<Map<Seq<char>, Seq<char>>>),
    {
        WWebS { resolution: None, env: None }
    }

    /// Combines two configurations. A section present in only one operand is
    /// kept; where both set the index, the right one wins; where both have an
    /// environment, the two are united and the right one wins on a shared key.
    pub fn bitand(self, rhs: WWebS) -> (r: WWebS)
        ensures
            r@ == combine_spec(self@, rhs@),
    {
        let resolution = match (self.resolution, rhs.resolution) {
            (Some(v), None) => Some(v),
            (None, Some(v)) => Some(v),
            (Some(a), Some(b)) => Some(a.bitand(b)),
            (None, None) => None,
        };
        let env = match (self.env, rhs.env) {
            (Some(v), None) => Some(v),
            (None, Some(v)) => Some(v),
            (Some(a), Some(b)) => {
                let mut m = a;
                m.extend_from(&b);
                Some(m)
            },
            (None, None) => None,
        };
        let r = WWebS { resolution, env };
        assert(r@ =~= combine_spec(self@, rhs@));
        r
    }

    /// A copy of the configuration.
    pub fn duplicate(&self) -> (r: WWebS)
        ensures
            r@ == self@,
    {
        let resolution = match &self.resolution {
            Some(v) => Some(v.duplicate()),
            None => None,
        };
        let env = match &self.env {
            Some(m) => Some(m.duplicate()),
            None => None,
        };
        WWebS { resolution, env }
    }

    /// The name of the file that stands for a directory under this
    /// configuration.
    pub fn index_name(&self) -> (r: String)
        ensures
            r@ == index_spec(self@),
    {
        match &self.resolution {
            Some(ResolutionInfo { index: Some(i) }) => i.clone(),
            _ => String::from_str("index.html"),
        }
    }

    /// The same configuration with `key` set to `value` in its environment,
    /// which is created where absent.
    pub fn with_env(&self, key: String, value: String) -> (r: WWebS)
        ensures
            r@.0 == self@.0,
            r@.1 == Some(env_map_spec(self@).insert(key@, value@)),
    {
        let mut r = self.duplicate();
        let mut m = match r.env {
            Some(m) => m,
            None => StrMap::new(),
        };
        m.insert(key, value);
        WWebS { resolution: r.resolution, env: Some(m) }
    }
}

/// Combining configurations is associative: grouping does not change the
/// result.
pub proof fn lemma_combine_associative(a: WWebS, b: WWebS, c: WWebS)
    ensures
        combine_spec(combine_spec(a@, b@), c@) == combine_spec(a@, combine_spec(b@, c@)),
{
    let l = combine_spec(combine_spec(a@, b@), c@);
    let r = combine_spec(a@, combine_spec(b@, c@));
    if a@.1.is_some() && b@.1.is_some() && c@.1.is_some() {
        let (x, y, z) = (a@.1.unwrap(), b@.1.unwrap(), c@.1.unwrap());
        assert(x.union_prefer_right(y).union_prefer_right(z) =~= x.union_prefer_right(
            y.union_prefer_right(z),
        ));
    }
    assert(l.0 == r.0);
    assert(l.1 == r.1);
}

} // verus!
