//! Laws of the import object built by a linker.
use vstd::prelude::*;
use crate::imports::register;
use crate::linker::build_imports;

verus! {

/// `(module, name)` is set in `imports`.
pub open spec fn is_set<V>(
    imports: Map<Seq<char>, Map<Seq<char>, V>>,
    module: Seq<char>,
    name: Seq<char>,
) -> bool {
    imports.contains_key(module) && imports[module].contains_key(name)
}

/// What a lookup gives back of a set: after `value` is set under `name` in
/// namespace `module`, that is what the import object holds there.
pub proof fn law_register_then_lookup<V>(
    imports: Map<Seq<char>, Map<Seq<char>, V>>,
    module: Seq<char>,
    name: Seq<char>,
    value: V,
)
    ensures
        is_set(register(imports, module, name, value), module, name),
        register(imports, module, name, value)[module][name] == value,
{
}

/// Setting one name changes nothing else: every other namespace and name is
/// set as before, with the same value, and namespaces only get added.
pub proof fn law_register_keeps_others<V>(
    imports: Map<Seq<char>, Map<Seq<char>, V>>,
    module: Seq<char>,
    name: Seq<char>,
    value: V,
    other_module: Seq<char>,
    other_name: Seq<char>,
)
    requires
        other_module != module || other_name != name,
    ensures
        is_set(register(imports, module, name, value), other_module, other_name) == is_set(
            imports,
            other_module,
            other_name,
        ),
        is_set(imports, other_module, other_name) ==> register(imports, module, name, value)[other_module][other_name]
            == imports[other_module][other_name],
        register(imports, module, name, value).dom() == imports.dom().insert(module),
{
    assert(register(imports, module, name, value).dom() =~= imports.dom().insert(module));
}

/// The imports hold a namespace exactly for the namespaces registered, and a
/// name in it exactly for the names registered in it.
pub proof fn law_imports_hold_exactly_the_registered<V>(
    regs: Seq<(Seq<char>, Seq<char>)>,
    vals: Seq<V>,
    k: int,
    module: Seq<char>,
    name: Seq<char>,
)
    requires
        0 <= k <= regs.len(),
        k <= vals.len(),
    ensures
        build_imports(regs, vals, k).contains_key(module) <==> exists|i: int|
            0 <= i < k && (#[trigger] regs[i]).0 == module,
        is_set(build_imports(regs, vals, k), module, name) <==> exists|i: int|
            0 <= i < k && #[trigger] regs[i] == (module, name),
    decreases k,
{
    if k > 0 {
        law_imports_hold_exactly_the_registered(regs, vals, k - 1, module, name);
        let prev = build_imports(regs, vals, k - 1);
        let (m, n) = regs[k - 1];
        if (exists|i: int| 0 <= i < k && (#[trigger] regs[i]).0 == module) {
            let i = choose|i: int| 0 <= i < k && (#[trigger] regs[i]).0 == module;
            if i < k - 1 {
                assert(exists|j: int| 0 <= j < k - 1 && (#[trigger] regs[j]).0 == module);
            }
        }
        if (exists|i: int| 0 <= i < k && #[trigger] regs[i] == (module, name)) {
            let i = choose|i: int| 0 <= i < k && #[trigger] regs[i] == (module, name);
            if i < k - 1 {
                assert(exists|j: int| 0 <= j < k - 1 && #[trigger] regs[j] == (module, name));
            } else {
                law_register_then_lookup(prev, m, n, vals[k - 1]);
            }
        }
        if module != m || name != n {
            law_register_keeps_others(prev, m, n, vals[k - 1], module, name);
        } else {
            law_register_then_lookup(prev, m, n, vals[k - 1]);
        }
        if build_imports(regs, vals, k - 1).contains_key(module) {
            let i = choose|i: int| 0 <= i < k - 1 && (#[trigger] regs[i]).0 == module;
            assert(0 <= i < k && regs[i].0 == module);
        }
        if is_set(prev, module, name) {
            let i = choose|i: int| 0 <= i < k - 1 && #[trigger] regs[i] == (module, name);
            assert(0 <= i < k && regs[i] == (module, name));
        }
        if module == m {
            assert(regs[k - 1].0 == module);
        }
        if module == m && name == n {
            assert(regs[k - 1] == (module, name));
        }
    }
}

/// The last registration wins: where `(module, name)` is registered at position
/// `i` and never again after it, the imports hold the value made for position `i`.
pub proof fn law_last_registration_wins<V>(
    regs: Seq<(Seq<char>, Seq<char>)>,
    vals: Seq<V>,
    i: int,
    k: int,
)
    requires
        0 <= i < k <= regs.len(),
        k <= vals.len(),
        forall|j: int| i < j < k ==> #[trigger] regs[j] != regs[i],
    ensures
        is_set(build_imports(regs, vals, k), regs[i].0, regs[i].1),
        build_imports(regs, vals, k)[regs[i].0][regs[i].1] == vals[i],
    decreases k,
{
    let (m, n) = regs[i];
    if k == i + 1 {
        law_register_then_lookup(build_imports(regs, vals, i), m, n, vals[i]);
    } else {
        law_last_registration_wins(regs, vals, i, k - 1);
        let (m2, n2) = regs[k - 1];
        assert(regs[k - 1] != regs[i]);
        law_register_keeps_others(build_imports(regs, vals, k - 1), m2, n2, vals[k - 1], m, n);
    }
}

} // verus!
