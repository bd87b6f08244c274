//! The linker: host functions registered by namespace and name, and the import
//! object built from them when a module is instantiated.
use vstd::prelude::*;
use crate::error::Error;
use crate::imports::{register, Imports};

verus! {

/// The engine a linker is made for. It holds nothing: the host runtime does the work.
pub struct Engine;

/// A host function waiting to be instantiated: where it goes in the import object,
/// and the creator that makes its imported value.
struct PreparedFn<F> {
    module: String,
    name: String,
    creator: F,
}

impl<F> PreparedFn<F> {
    /// A host function to be imported as `name` in namespace `module`.
    fn new(module: &str, name: &str, creator: F) -> (r: Self)
        ensures
            r.module@ == module@,
            r.name@ == name@,
            r.creator == creator,
    {
        PreparedFn { module: module.to_owned(), name: name.to_owned(), creator }
    }

    /// The position of namespace `module` in `imports`, created empty where it is missing.
    fn module<V>(imports: &mut Imports<V>, module: &str) -> (r: usize)
        requires
            old(imports).wf(),
        ensures
            final(imports).wf(),
            final(imports)@ == if old(imports)@.contains_key(module@) {
                old(imports)@
            } else {
                old(imports)@.insert(module@, Map::empty())
            },
            r < final(imports).namespace_count(),
            final(imports).namespace_at(r as int) == module@,
            old(imports)@.contains_key(module@) ==> *final(imports) == *old(imports),
            forall|j: int|
                0 <= j < old(imports).namespace_count() && #[trigger] old(imports).namespace_at(j)
                    == module@ ==> r == j,
            !old(imports)@.contains_key(module@) ==> {
                &&& final(imports).namespace_count() == old(imports).namespace_count() + 1
                &&& r == old(imports).namespace_count()
                &&& forall|i: int|
                    0 <= i < old(imports).namespace_count() ==> #[trigger] final(imports).namespace_at(i)
                        == old(imports).namespace_at(i)
            },
    {
        match imports.find(module) {
            Some(i) => {
                proof {
                    imports.lemma_namespace_at(i as int);
                    assert forall|j: int|
                        0 <= j < imports.namespace_count() && #[trigger] imports.namespace_at(j)
                            == module@ implies i == j by {
                        imports.law_namespace_position_unique(i as int, j);
                    }
                }
                i
            },
            None => {
                proof {
                    assert forall|j: int|
                        0 <= j < imports.namespace_count() implies #[trigger] imports.namespace_at(j)
                        != module@ by {
                        imports.lemma_namespace_at(j);
                    }
                }
                imports.insert_namespace(module)
            },
        }
    }

    /// Makes this function's imported value from a clone of `handle` and sets it
    /// under its name in its namespace, returning what must be kept alive with it.
    fn add_to_imports<H: Clone, V, D>(&self, imports: &mut Imports<V>, handle: &H) -> (r: D) where
        F: Fn(H) -> (V, D),

        requires
            old(imports).wf(),
            forall|h: H| call_requires(self.creator, (h,)),
        ensures
            final(imports).wf(),
            exists|h: H, v: V|
                {
                    &&& cloned(*handle, h)
                    &&& #[trigger] call_ensures(self.creator, (h,), (v, r))
                    &&& final(imports)@ == register(old(imports)@, self.module@, self.name@, v)
                },
    {
        let module = Self::module(imports, self.module.as_str());
        let ghost mid = imports@;
        proof {
            imports.lemma_namespace_at(module as int);
        }
        let h = handle.clone();
        let (js_val, handler) = (self.creator)(h);
        imports.set(module, self.name.as_str(), js_val);
        proof {
            assert(mid.contains_key(self.module@));
            assert(imports@ =~= register(old(imports)@, self.module@, self.name@, js_val));
        }
        handler
    }
}

/// `creator`, called on a clone of `handle`, may give the value `v` and the keep-alive `d`.
pub open spec fn made_by<F, H: Clone, V, D>(creator: F, handle: H, v: V, d: D) -> bool where
    F: Fn(H) -> (V, D),
 {
    exists|h: H| cloned(handle, h) && #[trigger] call_ensures(creator, (h,), (v, d))
}

/// The imports built from registrations `regs` (namespace and name of each) and
/// the values `vals` made for them, the first `k` of them set in turn.
pub open spec fn build_imports<V>(
    regs: Seq<(Seq<char>, Seq<char>)>,
    vals: Seq<V>,
    k: int,
) -> Map<Seq<char>, Map<Seq<char>, V>>
    decreases k,
{
    if k <= 0 {
        Map::empty()
    } else {
        register(build_imports(regs, vals, k - 1), regs[k - 1].0, regs[k - 1].1, vals[k - 1])
    }
}

/// Registers host functions by namespace and name and builds the import object
/// for an instance from them. `F` is the type of the functions' creators.
pub struct Linker<F> {
    fns: Vec<PreparedFn<F>>,
}

impl<F> View for Linker<F> {
    type V = Seq<(Seq<char>, Seq<char>, F)>;

    closed spec fn view(&self) -> Seq<(Seq<char>, Seq<char>, F)> {
        self.fns@.map_values(|p: PreparedFn<F>| (p.module@, p.name@, p.creator))
    }
}

/// The namespace and name of each registration, in order.
pub open spec fn registrations<F>(fns: Seq<(Seq<char>, Seq<char>, F)>) -> Seq<
    (Seq<char>, Seq<char>),
> {
    fns.map_values(|p: (Seq<char>, Seq<char>, F)| (p.0, p.1))
}

impl<F> Linker<F> {
    /// A linker with no functions registered.
    pub fn new(_engine: &Engine) -> (r: Self)
        ensures
            r@ == Seq::<(Seq<char>, Seq<char>, F)>::empty(),
    {
        let r = Linker { fns: Vec::new() };
        assert(r@ =~= Seq::<(Seq<char>, Seq<char>, F)>::empty());
        r
    }

    /// Registers `func` as `name` in namespace `module`. Later registrations of
    /// the same namespace and name take precedence when the imports are built.
    pub fn func_wrap(&mut self, module: &str, name: &str, func: F) -> (r: Result<&mut Self, Error>)
        ensures
            r is Ok,
            (*r->Ok_0)@ == old(self)@.push((module@, name@, func)),
            *final(self) == *final(r->Ok_0),
    {
        let prepared = PreparedFn::new(module, name, func);
        self.fns.push(prepared);
        proof {
            assert(self@ =~= old(self)@.push((module@, name@, func)));
        }
        Ok(self)
    }

    /// The import object for an instance, and what must be kept alive with it:
    /// every registered function's creator is called in order on a clone of
    /// `handle`, and the value it makes is set under the function's namespace and
    /// name, replacing a value set earlier under the same ones.
    pub fn prepare_imports<H: Clone, V, D>(&self, handle: &H) -> (r: (Imports<V>, Vec<D>)) where
        F: Fn(H) -> (V, D),

        requires
            forall|i: int, h: H| 0 <= i < self@.len() ==> #[trigger] call_requires(self@[i].2, (h,)),
        ensures
            r.0.wf(),
            r.1@.len() == self@.len(),
            exists|vals: Seq<V>|
                #![trigger build_imports(registrations(self@), vals, self@.len() as int)]
                {
                    &&& vals.len() == self@.len()
                    &&& r.0@ == build_imports(registrations(self@), vals, self@.len() as int)
                    &&& forall|i: int|
                        0 <= i < self@.len() ==> #[trigger] made_by(
                            self@[i].2,
                            *handle,
                            vals[i],
                            r.1@[i],
                        )
                },
    {
        let mut imports: Imports<V> = Imports::new();
        let mut drop_handles: Vec<D> = Vec::new();
        let ghost mut vals: Seq<V> = Seq::empty();
        let n = self.fns.len();
        let mut i: usize = 0;
        while i < n
            invariant
                n == self@.len(),
                i <= n,
                imports.wf(),
                forall|j: int, h: H| 0 <= j < self@.len() ==> #[trigger] call_requires(self@[j].2, (h,)),
                vals.len() == i,
                drop_handles@.len() == i,
                imports@ == build_imports(registrations(self@), vals, i as int),
                forall|j: int|
                    0 <= j < i ==> #[trigger] made_by(
                        self@[j].2,
                        *handle,
                        vals[j],
                        drop_handles@[j],
                    ),
            decreases n - i,
        {
            let prepared = &self.fns[i];
            assert(self@[i as int] == (prepared.module@, prepared.name@, prepared.creator));
            let ghost before = imports@;
            assert forall|h: H| call_requires(prepared.creator, (h,)) by {
                assert(call_requires(self@[i as int].2, (h,)));
            }
            let handler = prepared.add_to_imports(&mut imports, handle);
            let ghost (hv, v) = choose|h: H, v: V|
                {
                    &&& cloned(*handle, h)
                    &&& #[trigger] call_ensures(prepared.creator, (h,), (v, handler))
                    &&& imports@ == register(before, prepared.module@, prepared.name@, v)
                };
            let ghost prev_vals = vals;
            let ghost prev_handles = drop_handles@;
            drop_handles.push(handler);
            proof {
                vals = vals.push(v);
                let regs = registrations(self@);
                assert(regs[i as int] == (prepared.module@, prepared.name@));
                assert(build_imports(regs, vals, i as int) == build_imports(regs, prev_vals, i as int))
                    by {
                    lemma_build_imports_prefix(regs, prev_vals, vals, i as int);
                }
                assert forall|j: int| 0 <= j < i + 1 implies #[trigger] made_by(
                    self@[j].2,
                    *handle,
                    vals[j],
                    drop_handles@[j],
                ) by {
                    if j < i {
                        assert(vals[j] == prev_vals[j]);
                        assert(drop_handles@[j] == prev_handles[j]);
                        assert(made_by(self@[j].2, *handle, prev_vals[j], prev_handles[j]));
                    } else {
                        assert(made_by(prepared.creator, *handle, v, handler));
                    }
                }
            }
            i += 1;
        }
        assert(vals.len() == self@.len() && imports@ == build_imports(
            registrations(self@),
            vals,
            self@.len() as int,
        ));
        (imports, drop_handles)
    }
}

/// The imports built from the first `k` values depend on those values alone.
proof fn lemma_build_imports_prefix<V>(
    regs: Seq<(Seq<char>, Seq<char>)>,
    a: Seq<V>,
    b: Seq<V>,
    k: int,
)
    requires
        0 <= k <= a.len(),
        k <= b.len(),
        forall|j: int| 0 <= j < k ==> a[j] == b[j],
    ensures
        build_imports(regs, a, k) == build_imports(regs, b, k),
    decreases k,
{
    if k > 0 {
        lemma_build_imports_prefix(regs, a, b, k - 1);
    }
}

} // verus!
