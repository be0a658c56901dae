use vstd::prelude::*;
use vstd::string::StringExecFns;
use crate::keymap::{KeyCode, Keymap};
use crate::output::OutputModel;
use crate::reference::{reference_parts, split_reference};
use crate::target::{find_partial, LayoutModel, Partial, TargetLayout};

verus! {

/// A symbols document together with the path it was read from.
pub struct StoredLayout {
    pub path: String,
    pub layout: TargetLayout,
}

/// The symbols documents that references can reach, by path.
pub struct LayoutStore {
    pub documents: Vec<StoredLayout>,
}

/// Model of a store: pairs of path and document, in the order they were added.
pub type StoreModel = Seq<(Seq<char>, LayoutModel)>;

impl View for LayoutStore {
    type V = StoreModel;

    open spec fn view(&self) -> StoreModel {
        self.documents@.map_values(|d: StoredLayout| (d.path@, d.layout@))
    }
}

/// The first document stored under `path`, at or after position `i`.
pub open spec fn find_document(st: StoreModel, path: Seq<char>, i: int) -> Option<LayoutModel>
    decreases st.len() - i,
{
    if i < 0 || i >= st.len() {
        None
    } else if st[i].0 == path {
        Some(st[i].1)
    } else {
        find_document(st, path, i + 1)
    }
}

/// Why a reference could not be resolved.
pub enum ResolveError {
    /// No document is stored under this path.
    NotFound(String),
    /// The document at `path` has no partial named `part`.
    MissingPartial { path: String, part: String },
    /// The chain starting at this reference links more partials than the
    /// store holds, so it runs in a cycle.
    Cyclic(String),
}

/// Mathematical model of [`ResolveError`].
pub ghost enum ResolveFault {
    NotFound(Seq<char>),
    MissingPartial(Seq<char>, Seq<char>),
    Cyclic(Seq<char>),
}

impl View for ResolveError {
    type V = ResolveFault;

    open spec fn view(&self) -> ResolveFault {
        match self {
            ResolveError::NotFound(p) => ResolveFault::NotFound(p@),
            ResolveError::MissingPartial { path, part } => ResolveFault::MissingPartial(path@, part@),
            ResolveError::Cyclic(r) => ResolveFault::Cyclic(r@),
        }
    }
}

/// The flattened mapping of the chain that starts at reference `r`, following
/// at most `fuel` parent links: the parent's mapping with the partial's own
/// overrides laid over it.
pub open spec fn resolve_with_fuel(st: StoreModel, r: Seq<char>, fuel: nat) -> Result<
    Map<KeyCode, OutputModel>,
    ResolveFault,
>
    decreases fuel,
{
    let (path, part) = reference_parts(r);
    match find_document(st, path, 0) {
        None => Err(ResolveFault::NotFound(path)),
        Some(doc) => match find_partial(doc, part) {
            None => Err(ResolveFault::MissingPartial(path, part)),
            Some(p) => match p.parent {
                None => Ok(p.overrides),
                Some(up) => if fuel == 0 {
                    Err(ResolveFault::Cyclic(r))
                } else {
                    match resolve_with_fuel(st, up, (fuel - 1) as nat) {
                        Ok(base) => Ok(base.union_prefer_right(p.overrides)),
                        Err(e) => Err(e),
                    }
                },
            },
        },
    }
}

/// Number of partials in the store's documents.
pub open spec fn partial_count(st: StoreModel) -> nat
    decreases st.len(),
{
    if st.len() == 0 {
        0
    } else {
        partial_count(st.drop_last()) + 1 + st.last().1.partials.len()
    }
}

/// How many parent links a resolution may follow: an acyclic chain visits
/// each partial at most once, so it has fewer links than the store has partials.
pub open spec fn link_limit(st: StoreModel) -> nat {
    if partial_count(st) > usize::MAX {
        usize::MAX as nat
    } else {
        partial_count(st)
    }
}

/// What resolving reference `r` against the store yields.
pub open spec fn resolved(st: StoreModel, r: Seq<char>) -> Result<Map<KeyCode, OutputModel>, ResolveFault> {
    resolve_with_fuel(st, r, link_limit(st))
}

/// A resolution that succeeds with some number of links gives the same
/// mapping with any larger allowance.
pub proof fn lemma_fuel_extends(st: StoreModel, r: Seq<char>, fuel: nat, more: nat)
    requires
        resolve_with_fuel(st, r, fuel) is Ok,
        fuel <= more,
    ensures
        resolve_with_fuel(st, r, more) == resolve_with_fuel(st, r, fuel),
    decreases fuel,
{
    let (path, part) = reference_parts(r);
    match find_document(st, path, 0) {
        None => {},
        Some(doc) => match find_partial(doc, part) {
            None => {},
            Some(p) => match p.parent {
                None => {},
                Some(up) => {
                    lemma_fuel_extends(st, up, (fuel - 1) as nat, (more - 1) as nat);
                },
            },
        },
    }
}

/// Resolution is deterministic: two resolutions of one reference against
/// stores with the same contents give the same mapping, or the same error.
pub proof fn law_resolution_deterministic(st1: StoreModel, st2: StoreModel, r: Seq<char>)
    requires
        st1 == st2,
    ensures
        resolved(st1, r) == resolved(st2, r),
{
}

/// Overrides are monotone along a chain: when the partial that reference `a`
/// names extends reference `b`, every key of `b`'s resolved mapping that the
/// partial does not override keeps its output in `a`'s resolved mapping.
pub proof fn law_inherited_keys_kept(st: StoreModel, a: Seq<char>)
    requires
        resolved(st, a) is Ok,
        find_document(st, reference_parts(a).0, 0) is Some,
        find_partial(find_document(st, reference_parts(a).0, 0)->0, reference_parts(a).1) is Some,
        find_partial(find_document(st, reference_parts(a).0, 0)->0, reference_parts(a).1)->0.parent is Some,
    ensures
        ({
            let p = find_partial(find_document(st, reference_parts(a).0, 0)->0, reference_parts(a).1)->0;
            let b = p.parent->0;
            &&& resolved(st, b) is Ok
            &&& forall|k: KeyCode|
                #[trigger] resolved(st, b)->Ok_0.contains_key(k) && !p.overrides.contains_key(k) ==> {
                    &&& resolved(st, a)->Ok_0.contains_key(k)
                    &&& resolved(st, a)->Ok_0[k] == resolved(st, b)->Ok_0[k]
                }
        }),
{
    let p = find_partial(find_document(st, reference_parts(a).0, 0)->0, reference_parts(a).1)->0;
    let b = p.parent->0;
    let lim = link_limit(st);
    assert(lim > 0);
    assert(resolve_with_fuel(st, b, (lim - 1) as nat) is Ok);
    lemma_fuel_extends(st, b, (lim - 1) as nat, lim);
}

impl LayoutStore {
    /// An empty store.
    pub fn new() -> (r: LayoutStore)
        ensures
            r@ == Seq::<(Seq<char>, LayoutModel)>::empty(),
    {
        LayoutStore { documents: Vec::new() }
    }

    /// Adds a document under `path`; an earlier document under the same
    /// path keeps precedence.
    pub fn add(&mut self, path: String, layout: TargetLayout)
        ensures
            final(self)@ == old(self)@.push((path@, layout@)),
    {
        self.documents.push(StoredLayout { path, layout });
        assert(final(self)@ =~= old(self)@.push((path@, layout@)));
    }

    /// The document stored under `path`.
    pub fn find(&self, path: &str) -> (r: Option<&TargetLayout>)
        ensures
            match r {
                Some(l) => find_document(self@, path@, 0) == Some(l@),
                None => find_document(self@, path@, 0).is_none(),
            },
    {
        let wanted = String::from_str(path);
        let ghost st = self@;
        let mut i: usize = 0;
        while i < self.documents.len()
            invariant
                st == self@,
                wanted@ == path@,
                0 <= i <= self.documents.len(),
                find_document(st, path@, 0) == find_document(st, path@, i as int),
            decreases self.documents.len() - i,
        {
            if self.documents[i].path.eq(&wanted) {
                assert(st[i as int] == (self.documents@[i as int].path@, self.documents@[i as int].layout@));
                return Some(&self.documents[i].layout);
            }
            i = i + 1;
        }
        None
    }

    /// The number of partials over all documents, or `usize::MAX` if larger.
    pub fn link_limit(&self) -> (r: usize)
        ensures
            r as nat == link_limit(self@),
    {
        let ghost st = self@;
        let mut total: usize = 0;
        let mut capped = false;
        let mut i: usize = 0;
        while i < self.documents.len()
            invariant
                st == self@,
                0 <= i <= self.documents.len(),
                capped ==> total == usize::MAX && partial_count(st.take(i as int)) > usize::MAX,
                !capped ==> total as nat == partial_count(st.take(i as int)),
            decreases self.documents.len() - i,
        {
            proof {
                assert(st.take(i + 1).drop_last() =~= st.take(i as int));
            }
            let n = self.documents[i].layout.partials.len();
            if capped || total > usize::MAX - 1 || n > usize::MAX - 1 - total {
                capped = true;
                total = usize::MAX;
            } else {
                total = total + 1 + n;
            }
            i = i + 1;
        }
        proof {
            assert(st.take(i as int) =~= st);
        }
        total
    }
}

/// Copy of a partial's overrides.
fn own_overrides(p: &Partial) -> (r: Keymap)
    ensures
        r@ == p.overrides@,
{
    let mut r = Keymap::new();
    r.overlay(&p.overrides);
    assert(r@ =~= p.overrides@);
    r
}

/// Resolves `r`, following at most `fuel` parent links.
fn resolve_fueled(store: &LayoutStore, r: &str, fuel: usize) -> (res: Result<Keymap, ResolveError>)
    ensures
        match res {
            Ok(m) => resolve_with_fuel(store@, r@, fuel as nat) == Ok::<Map<KeyCode, OutputModel>, ResolveFault>(m@),
            Err(e) => resolve_with_fuel(store@, r@, fuel as nat) == Err::<Map<KeyCode, OutputModel>, ResolveFault>(e@),
        },
    decreases fuel,
{
    let (path, part) = split_reference(r);
    let doc = match store.find(path) {
        Some(d) => d,
        None => {
            return Err(ResolveError::NotFound(String::from_str(path)));
        },
    };
    let p = match doc.get_partial(part) {
        Some(p) => p,
        None => {
            return Err(
                ResolveError::MissingPartial { path: String::from_str(path), part: String::from_str(part) },
            );
        },
    };
    match &p.parent {
        None => Ok(own_overrides(p)),
        Some(up) => {
            if fuel == 0 {
                return Err(ResolveError::Cyclic(String::from_str(r)));
            }
            let mut base = resolve_fueled(store, up.as_str(), fuel - 1)?;
            base.overlay(&p.overrides);
            Ok(base)
        },
    }
}

/// Flattens the chain of partials that starts at reference `r` (`path` or
/// `path(part)`) into one mapping. Nothing is cached: the same store and
/// reference always give the same result.
pub fn resolve(store: &LayoutStore, r: &str) -> (res: Result<Keymap, ResolveError>)
    ensures
        match res {
            Ok(m) => resolved(store@, r@) == Ok::<Map<KeyCode, OutputModel>, ResolveFault>(m@),
            Err(e) => resolved(store@, r@) == Err::<Map<KeyCode, OutputModel>, ResolveFault>(e@),
        },
{
    let limit = store.link_limit();
    resolve_fueled(store, r, limit)
}

} // verus!
