//! Loading the modules of a program: for each file an import reaches, whether
//! it is a new module, one met already, or part of a cycle of imports; and the
//! resolution of the loaded modules together.
use std::rc::Rc;
use vstd::prelude::*;
use super::archive::resolve_includes::{contains_path, paths_view, remove_path, without};
use super::ast::Program;
use super::diag::{diag_view, painted, painted_all, rendered_segments, CompilerCtx, Diag, Paint, Severity};
use super::rast::{ModuleId, RProgram};
use super::rlower::{
    defined_fns, fn_body, fn_signature, funcs_in_items, grew, import_errors, imports_found, items_ast_ok, items_table,
    lemma_grew_refl, lemma_grew_trans, tables_bodies, upsert, vars_in_items, RStmtM, Resolver,
};
use super::rast::VarId;
use super::diag::{diags_view, DiagModel};
use super::rast::{FuncId, RFunction, RModule};
use super::ty::TyModel;
use super::source::SourceFile;
use super::taclower::stmt_ok;
use crate::text::str_eq;

verus! {

/// A module loaded from its file: its number, the name it was imported by,
/// its source and its items.
pub struct LoadedModule {
    pub id: ModuleId,
    pub name: String,
    pub source: Rc<SourceFile>,
    pub program: Program,
}

/// What reaching a module's file means.
#[derive(Debug, Clone, Copy, PartialEq, Eq, Structural)]
pub enum Visit {
    /// The file was met before, as this module.
    Known(ModuleId),
    /// The file is being loaded: the imports form a cycle.
    Circular,
    /// The file is new: load it as this module.
    Fresh(ModuleId),
}

/// The module that the first entry for `path` names.
pub open spec fn module_of(entries: Seq<(Seq<char>, ModuleId)>, path: Seq<char>) -> Option<ModuleId>
    decreases entries.len(),
{
    if entries.len() == 0 {
        None
    } else if entries[0].0 == path {
        Some(entries[0].1)
    } else {
        module_of(entries.drop_first(), path)
    }
}

/// Paths and modules, the paths as text.
pub open spec fn entries_view(v: Seq<(String, ModuleId)>) -> Seq<(Seq<char>, ModuleId)> {
    v.map_values(|e: (String, ModuleId)| (e.0@, e.1))
}

/// The state of loading: the next module number, the files met and their
/// modules, the files being loaded (innermost last), and the modules loaded,
/// each after those it imports.
pub struct ModuleLoader {
    next_id: u32,
    discovered: Vec<(String, ModuleId)>,
    in_progress: Vec<String>,
    loaded: Vec<LoadedModule>,
}

impl ModuleLoader {
    /// The number the next new module gets.
    pub closed spec fn next_id(&self) -> nat {
        self.next_id as nat
    }

    /// The canonical paths of the files met, with their modules.
    pub closed spec fn discovered(&self) -> Seq<(Seq<char>, ModuleId)> {
        entries_view(self.discovered@)
    }

    /// The canonical paths of the files being loaded.
    pub closed spec fn in_progress(&self) -> Seq<Seq<char>> {
        paths_view(self.in_progress@)
    }

    /// The modules loaded so far, in the order they were finished.
    pub closed spec fn loaded(&self) -> Seq<LoadedModule> {
        self.loaded@
    }

    /// Whether every file being loaded was met, as some module.
    pub open spec fn wf(&self) -> bool {
        forall|p: Seq<char>| #[trigger] self.in_progress().contains(p) ==> module_of(self.discovered(), p) is Some
    }

    /// Nothing met or loaded yet.
    pub fn new() -> (l: Self)
        ensures
            l.wf(),
            l.next_id() == 0,
            l.discovered() == Seq::<(Seq<char>, ModuleId)>::empty(),
            l.in_progress() == Seq::<Seq<char>>::empty(),
            l.loaded() == Seq::<LoadedModule>::empty(),
    {
        let l = ModuleLoader { next_id: 0, discovered: Vec::new(), in_progress: Vec::new(), loaded: Vec::new() };
        assert(l.discovered() =~= Seq::<(Seq<char>, ModuleId)>::empty());
        assert(l.in_progress() =~= Seq::<Seq<char>>::empty());
        l
    }

    /// A number for a new module.
    fn new_module_id(&mut self) -> (id: ModuleId)
        requires
            old(self).next_id() < u32::MAX,
        ensures
            id.0 == old(self).next_id(),
            final(self).next_id() == old(self).next_id() + 1,
            final(self).discovered() == old(self).discovered(),
            final(self).in_progress() == old(self).in_progress(),
            final(self).loaded() == old(self).loaded(),
    {
        let id = ModuleId(self.next_id);
        self.next_id = self.next_id + 1;
        id
    }

    /// The module met at `path`, if any.
    fn find_discovered(&self, path: &str) -> (r: Option<ModuleId>)
        ensures
            r == module_of(self.discovered(), path@),
    {
        let ghost ds = self.discovered();
        let mut k: usize = 0;
        assert(ds.skip(0) =~= ds);
        while k < self.discovered.len()
            invariant
                ds == self.discovered(),
                ds.len() == self.discovered@.len(),
                k <= ds.len(),
                module_of(ds, path@) == module_of(ds.skip(k as int), path@),
            decreases ds.len() - k,
        {
            proof {
                assert(ds.skip(k as int).drop_first() =~= ds.skip(k + 1));
                assert(ds.skip(k as int)[0] == ds[k as int]);
                assert(ds[k as int] == (self.discovered@[k as int].0@, self.discovered@[k as int].1));
            }
            if str_eq(self.discovered[k].0.as_str(), path) {
                return Some(self.discovered[k].1);
            }
            k += 1;
        }
        assert(ds.skip(k as int) =~= Seq::<(Seq<char>, ModuleId)>::empty());
        None
    }

    /// Reaches the file at `canonical`: a file met before is that module; one
    /// being loaded closes a cycle; a new one becomes the next module, met and
    /// being loaded.
    pub fn visit(&mut self, canonical: String) -> (v: Visit)
        requires
            module_of(old(self).discovered(), canonical@) is None && !old(self).in_progress().contains(canonical@)
                ==> old(self).next_id() < u32::MAX,
        ensures
            old(self).wf() ==> final(self).wf() && v != Visit::Circular,
            final(self).loaded() == old(self).loaded(),
            match module_of(old(self).discovered(), canonical@) {
                Some(id) => v == Visit::Known(id) && final(self).next_id() == old(self).next_id()
                    && final(self).discovered() == old(self).discovered() && final(self).in_progress() == old(self).in_progress(),
                None => if old(self).in_progress().contains(canonical@) {
                    v == Visit::Circular && final(self).next_id() == old(self).next_id()
                        && final(self).discovered() == old(self).discovered() && final(self).in_progress() == old(self).in_progress()
                } else {
                    v == Visit::Fresh(ModuleId(old(self).next_id() as u32))
                        && final(self).next_id() == old(self).next_id() + 1
                        && final(self).discovered() == old(self).discovered().push((canonical@, ModuleId(old(self).next_id() as u32)))
                        && final(self).in_progress() == old(self).in_progress().push(canonical@)
                },
            },
    {
        if let Some(id) = self.find_discovered(canonical.as_str()) {
            return Visit::Known(id);
        }
        if contains_path(&self.in_progress, canonical.as_str()) {
            return Visit::Circular;
        }
        let id = self.new_module_id();
        let ghost d0 = self.discovered@;
        let ghost p0 = self.in_progress@;
        self.discovered.push((canonical.clone(), id));
        self.in_progress.push(canonical);
        assert(entries_view(self.discovered@) =~= entries_view(d0).push((canonical@, id)));
        assert(paths_view(self.in_progress@) =~= paths_view(p0).push(canonical@));
        proof {
            if old(self).wf() {
                assert forall|p: Seq<char>| #[trigger] self.in_progress().contains(p) implies module_of(self.discovered(), p) is Some by {
                    lemma_module_of_push(entries_view(d0), (canonical@, id), p);
                    if p != canonical@ {
                        let k = choose|k: int| 0 <= k < self.in_progress().len() && self.in_progress()[k] == p;
                        assert(paths_view(p0)[k] == p);
                        assert(old(self).in_progress().contains(p));
                    }
                }
            }
        }
        Visit::Fresh(id)
    }

    /// Gives up the file at `canonical`, which could not be read: it is no
    /// longer being loaded (and stays met).
    pub fn abandon(&mut self, canonical: &str)
        ensures
            old(self).wf() ==> final(self).wf(),
            final(self).in_progress() == without(old(self).in_progress(), canonical@),
            final(self).next_id() == old(self).next_id(),
            final(self).discovered() == old(self).discovered(),
            final(self).loaded() == old(self).loaded(),
    {
        let mut ip: Vec<String> = Vec::new();
        std::mem::swap(&mut ip, &mut self.in_progress);
        self.in_progress = remove_path(ip, canonical);
        proof {
            assert forall|p: Seq<char>| #[trigger] self.in_progress().contains(p) implies old(self).in_progress().contains(p) by {
                lemma_without_contains(old(self).in_progress(), canonical@, p);
            }
        }
    }

    /// Finishes the file at `canonical`, loaded as `module` once the modules
    /// it imports were: it is no longer being loaded, and it is loaded.
    pub fn finish(&mut self, canonical: &str, module: LoadedModule)
        ensures
            old(self).wf() ==> final(self).wf(),
            final(self).in_progress() == without(old(self).in_progress(), canonical@),
            final(self).loaded() == old(self).loaded().push(module),
            final(self).next_id() == old(self).next_id(),
            final(self).discovered() == old(self).discovered(),
    {
        self.abandon(canonical);
        self.loaded.push(module);
    }

    /// The modules loaded, in the order they were finished.
    pub fn into_loaded(self) -> (v: Vec<LoadedModule>)
        ensures
            v@ == self.loaded(),
    {
        self.loaded
    }
}

/// Adding an entry keeps what each path names, and names a path that was
/// not named.
proof fn lemma_module_of_push(es: Seq<(Seq<char>, ModuleId)>, e: (Seq<char>, ModuleId), p: Seq<char>)
    ensures
        module_of(es, p) is Some ==> module_of(es.push(e), p) == module_of(es, p),
        module_of(es, p) is None && e.0 == p ==> module_of(es.push(e), p) == Some(e.1),
    decreases es.len(),
{
    if es.len() > 0 {
        assert(es.push(e).drop_first() =~= es.drop_first().push(e));
        lemma_module_of_push(es.drop_first(), e, p);
    } else {
        assert(es.push(e).drop_first() =~= Seq::<(Seq<char>, ModuleId)>::empty());
    }
}

/// What remains after removing a path was there, and is not that path.
proof fn lemma_without_contains(ps: Seq<Seq<char>>, c: Seq<char>, x: Seq<char>)
    ensures
        without(ps, c).contains(x) ==> ps.contains(x) && x != c,
    decreases ps.len(),
{
    if ps.len() > 0 {
        lemma_without_contains(ps.drop_last(), c, x);
        let w = without(ps.drop_last(), c);
        if without(ps, c).contains(x) {
            let k = choose|k: int| 0 <= k < without(ps, c).len() && without(ps, c)[k] == x;
            if ps.last() != c && k == w.len() {
                assert(ps[ps.len() - 1] == x);
            } else {
                assert(w[k] == x);
                let j = choose|j: int| 0 <= j < ps.drop_last().len() && ps.drop_last()[j] == x;
                assert(ps[j] == x);
            }
        }
    }
}

/// Loading never answers that imports form a cycle: a file being loaded was
/// met first, so reaching it again names its module.
pub proof fn lemma_never_circular(l: &ModuleLoader, canonical: Seq<char>)
    requires
        l.wf(),
    ensures
        l.in_progress().contains(canonical) ==> module_of(l.discovered(), canonical) is Some,
{
}

/// The functions the modules declare.
pub open spec fn funcs_total(ms: Seq<LoadedModule>) -> nat
    decreases ms.len(),
{
    if ms.len() == 0 { 0 } else { funcs_total(ms.drop_last()) + funcs_in_items(ms.last().program.items@) }
}

/// The function tables that registering the modules in order gives: each
/// module's functions numbered after those of the modules before it.
pub open spec fn registered_tables(ms: Seq<LoadedModule>) -> Seq<(ModuleId, Seq<(Seq<char>, (FuncId, TyModel))>)>
    decreases ms.len(),
{
    if ms.len() == 0 {
        Seq::empty()
    } else {
        upsert(
            registered_tables(ms.drop_last()),
            ms.last().id,
            items_table(ms.last().program.items@, funcs_total(ms.drop_last())),
        )
    }
}

/// The module names that registering the modules in order gives.
pub open spec fn registered_names(ms: Seq<LoadedModule>) -> Seq<(Seq<char>, ModuleId)>
    decreases ms.len(),
{
    if ms.len() == 0 {
        Seq::empty()
    } else {
        upsert(registered_names(ms.drop_last()), ms.last().name@, ms.last().id)
    }
}

/// The imports that registering the imports of the modules in order gives,
/// each looked up among `names`.
pub open spec fn registered_imports(ms: Seq<LoadedModule>, names: Seq<(Seq<char>, ModuleId)>) -> Seq<(ModuleId, Seq<ModuleId>)>
    decreases ms.len(),
{
    if ms.len() == 0 {
        Seq::empty()
    } else {
        upsert(registered_imports(ms.drop_last(), names), ms.last().id, imports_found(names, ms.last().program.items@))
    }
}

/// The errors of the imports of unknown modules, module after module.
pub open spec fn import_errors_all(ms: Seq<LoadedModule>, names: Seq<(Seq<char>, ModuleId)>) -> Seq<DiagModel>
    decreases ms.len(),
{
    if ms.len() == 0 {
        Seq::empty()
    } else {
        import_errors_all(ms.drop_last(), names) + import_errors(names, ms.last().program.items@)
    }
}

/// The resolution of the modules in order over the registered tables, with
/// variables numbered from `nv`: for each module, what its functions give
/// besides their signatures; and the diagnostics.
pub open spec fn bodies_from(
    ms: Seq<LoadedModule>,
    names: Seq<(Seq<char>, ModuleId)>,
    functions: Seq<(ModuleId, Seq<(Seq<char>, (FuncId, TyModel))>)>,
    imports: Seq<(ModuleId, Seq<ModuleId>)>,
    nv: nat,
) -> (Seq<Seq<(Seq<VarId>, Seq<TyModel>, RStmtM)>>, Seq<DiagModel>)
    decreases ms.len(),
{
    if ms.len() == 0 {
        (Seq::empty(), Seq::empty())
    } else {
        let (b, nv1, d) = tables_bodies(names, functions, imports, ms[0].id, ms[0].program.items@, nv);
        let (rest, dr) = bodies_from(ms.subrange(1, ms.len() as int), names, functions, imports, nv1);
        (seq![b] + rest, d + dr)
    }
}

/// What resolving gives of each module's functions besides their signatures.
pub open spec fn resolved_bodies(mods: Seq<RModule>) -> Seq<Seq<(Seq<VarId>, Seq<TyModel>, RStmtM)>> {
    mods.map_values(|m: RModule| m.functions@.map_values(|f: RFunction| fn_body(f)))
}

/// What resolving the modules together gives: the bodies of each module's
/// functions, and the diagnostics, those of the imports first.
pub open spec fn program_resolution(ms: Seq<LoadedModule>) -> (Seq<Seq<(Seq<VarId>, Seq<TyModel>, RStmtM)>>, Seq<DiagModel>) {
    let names = registered_names(ms);
    let imports = registered_imports(ms, names);
    let (b, d) = bodies_from(ms, names, registered_tables(ms), imports, 0);
    (b, import_errors_all(ms, names) + d)
}

/// The variables the modules' functions declare.
pub open spec fn vars_total(ms: Seq<LoadedModule>) -> nat
    decreases ms.len(),
{
    if ms.len() == 0 { 0 } else { vars_total(ms.drop_last()) + vars_in_items(ms.last().program.items@) }
}

/// A prefix declares no more than the whole.
proof fn lemma_totals_prefix(ms: Seq<LoadedModule>, k: int)
    requires
        0 <= k <= ms.len(),
    ensures
        funcs_total(ms.take(k)) <= funcs_total(ms),
        vars_total(ms.take(k)) <= vars_total(ms),
    decreases ms.len() - k,
{
    if k < ms.len() {
        lemma_totals_prefix(ms, k + 1);
        assert(ms.take(k + 1).drop_last() =~= ms.take(k));
    } else {
        assert(ms.take(k) =~= ms);
    }
}

/// Resolves loaded modules together, reporting into `ctx`: each is registered
/// under its name first, then the imports of each, then each is resolved in
/// turn. Where no module's items hold an error node and nothing is reported,
/// every function resolved can be lowered.
#[verifier::rlimit(100)]
#[verifier::spinoff_prover]
pub fn resolve_modules(ctx: CompilerCtx, modules: Vec<LoadedModule>) -> (r: (RProgram, CompilerCtx))
    requires
        funcs_total(modules@) <= u32::MAX,
        vars_total(modules@) <= u32::MAX,
    ensures
        r.0.modules@.len() == modules@.len(),
        forall|k: int| 0 <= k < modules@.len() ==> (#[trigger] r.0.modules@[k]).id == modules@[k].id,
        forall|k: int| 0 <= k < modules@.len() ==> (#[trigger] r.0.modules@[k]).functions@.map_values(|f: RFunction| fn_signature(f))
            == defined_fns(registered_tables(modules@), modules@[k].id, modules@[k].program.items@),
        resolved_bodies(r.0.modules@) == program_resolution(modules@).0,
        diags_view(r.1.diags@.subrange(ctx.diags@.len() as int, r.1.diags@.len() as int)) == program_resolution(modules@).1,
        grew(r.1.diags@, ctx.diags@),
        (forall|k: int| 0 <= k < modules@.len() ==> items_ast_ok((#[trigger] modules@[k]).program.items@))
            && r.1.diags@.len() == ctx.diags@.len() ==>
            forall|k: int, f: int| 0 <= k < r.0.modules@.len() && 0 <= f < r.0.modules@[k].functions@.len() ==>
                stmt_ok((#[trigger] r.0.modules@[k].functions@[f]).body),
{
    let ghost ms = modules@;
    let ghost d0 = ctx.diags@;
    let mut resolver = Resolver::new(ctx);
    let mut k: usize = 0;
    assert(ms.take(0) =~= Seq::<LoadedModule>::empty());
    while k < modules.len()
        invariant
            ms == modules@,
            k <= ms.len(),
            funcs_total(ms) <= u32::MAX,
            resolver.next_func() == funcs_total(ms.take(k as int)),
            resolver.next_var() == 0,
            resolver.resolved().len() == 0,
            resolver.context().diags@ == d0,
            resolver.function_tables() == registered_tables(ms.take(k as int)),
            resolver.module_table() == registered_names(ms.take(k as int)),
            resolver.import_table() == Seq::<(ModuleId, Seq<ModuleId>)>::empty(),
        decreases ms.len() - k,
    {
        proof {
            lemma_totals_prefix(ms, k + 1);
            assert(ms.take(k + 1).drop_last() =~= ms.take(k as int));
            assert(ms.take(k + 1).last() == ms[k as int]);
        }
        let m = &modules[k];
        resolver.register_module(m.name.as_str(), m.id, &m.program);
        k += 1;
    }
    proof { assert(ms.take(ms.len() as int) =~= ms); }
    let ghost ft = registered_tables(ms);
    let ghost names = registered_names(ms);
    let mut k: usize = 0;
    proof {
        lemma_grew_refl(d0);
        assert(ms.take(0) =~= Seq::<LoadedModule>::empty());
        assert(d0.subrange(d0.len() as int, d0.len() as int) =~= Seq::<Diag>::empty());
        assert(diags_view(Seq::<Diag>::empty()) =~= Seq::<DiagModel>::empty());
    }
    while k < modules.len()
        invariant
            ms == modules@,
            k <= ms.len(),
            resolver.next_var() == 0,
            resolver.resolved().len() == 0,
            grew(resolver.context().diags@, d0),
            resolver.function_tables() == ft,
            resolver.module_table() == names,
            resolver.import_table() == registered_imports(ms.take(k as int), names),
            diags_view(resolver.context().diags@.subrange(d0.len() as int, resolver.context().diags@.len() as int))
                == import_errors_all(ms.take(k as int), names),
        decreases ms.len() - k,
    {
        let ghost before = resolver.context().diags@;
        proof {
            assert(ms.take(k + 1).drop_last() =~= ms.take(k as int));
            assert(ms.take(k + 1).last() == ms[k as int]);
        }
        resolver.register_imports(modules[k].id, &modules[k].program);
        proof {
            lemma_grew_trans(d0, before, resolver.context().diags@);
            let now = resolver.context().diags@;
            assert(now.subrange(d0.len() as int, now.len() as int)
                =~= before.subrange(d0.len() as int, before.len() as int) + now.subrange(before.len() as int, now.len() as int));
            assert(diags_view(now.subrange(d0.len() as int, now.len() as int))
                =~= diags_view(before.subrange(d0.len() as int, before.len() as int)) + diags_view(now.subrange(before.len() as int, now.len() as int)));
        }
        k += 1;
    }
    proof { assert(ms.take(ms.len() as int) =~= ms); }
    let ghost imps = registered_imports(ms, names);
    let ghost d1 = resolver.context().diags@;
    proof {
        lemma_grew_refl(d1);
        assert(ms.skip(0) =~= ms);
        assert(d1.subrange(d1.len() as int, d1.len() as int) =~= Seq::<Diag>::empty());
        assert(diags_view(Seq::<Diag>::empty()) =~= Seq::<DiagModel>::empty());
        assert(resolved_bodies(resolver.resolved()) =~= Seq::<Seq<(Seq<VarId>, Seq<TyModel>, RStmtM)>>::empty());
    }
    assert(ms.len() <= usize::MAX);
    let mut rest = modules;
    let mut k: usize = 0;
    while rest.len() > 0
        invariant
            resolver.module_table() == names,
            resolver.import_table() == imps,
            bodies_from(ms, names, ft, imps, 0) == (
                resolved_bodies(resolver.resolved()) + bodies_from(ms.skip(k as int), names, ft, imps, resolver.next_var()).0,
                diags_view(resolver.context().diags@.subrange(d1.len() as int, resolver.context().diags@.len() as int))
                    + bodies_from(ms.skip(k as int), names, ft, imps, resolver.next_var()).1,
            ),
            diags_view(d1.subrange(d0.len() as int, d1.len() as int)) == import_errors_all(ms, names),
            rest@ == ms.skip(k as int),
            k <= ms.len(),
            ms.len() <= usize::MAX,
            vars_total(ms) <= u32::MAX,
            resolver.next_var() <= vars_total(ms.take(k as int)),
            resolver.resolved().len() == k,
            forall|q: int| 0 <= q < k ==> (#[trigger] resolver.resolved()[q]).id == ms[q].id,
            resolver.function_tables() == ft,
            ft == registered_tables(ms),
            forall|q: int| 0 <= q < k ==> (#[trigger] resolver.resolved()[q]).functions@.map_values(|f: RFunction| fn_signature(f))
                == defined_fns(ft, ms[q].id, ms[q].program.items@),
            grew(d1, d0),
            grew(resolver.context().diags@, d1),
            (forall|q: int| 0 <= q < ms.len() ==> items_ast_ok((#[trigger] ms[q]).program.items@))
                && resolver.context().diags@.len() == d0.len() ==>
                forall|q: int, f: int| 0 <= q < k && 0 <= f < resolver.resolved()[q].functions@.len() ==>
                    stmt_ok((#[trigger] resolver.resolved()[q].functions@[f]).body),
        decreases rest@.len(),
    {
        proof {
            assert(k < ms.len());
            lemma_totals_prefix(ms, k + 1);
            assert(ms.take(k + 1).drop_last() =~= ms.take(k as int));
            assert(rest@[0] == ms[k as int]);
        }
        let m = rest.remove(0);
        let ghost r0 = resolver.resolved();
        let ghost before = resolver.context().diags@;
        let ghost nvb = resolver.next_var();
        let ghost rb0 = resolved_bodies(r0);
        let ghost step = tables_bodies(names, ft, imps, m.id, m.program.items@, nvb);
        proof {
            let sk = ms.skip(k as int);
            assert(sk[0] == ms[k as int]);
            assert(sk.subrange(1, sk.len() as int) =~= ms.skip(k + 1));
            assert(bodies_from(sk, names, ft, imps, nvb) == (
                seq![step.0] + bodies_from(ms.skip(k + 1), names, ft, imps, step.1).0,
                step.2 + bodies_from(ms.skip(k + 1), names, ft, imps, step.1).1,
            ));
        }
        resolver.resolve_module(m.id, m.source, m.program);
        proof {
            let now = resolver.context().diags@;
            let tail = bodies_from(ms.skip(k + 1), names, ft, imps, resolver.next_var());
            assert(resolver.resolved() =~= r0.push(resolver.resolved().last())) by {
                assert(resolver.resolved().take(r0.len() as int) == r0);
            }
            assert(resolved_bodies(resolver.resolved()) =~= rb0.push(step.0));
            assert(rb0.push(step.0) + tail.0 =~= rb0 + (seq![step.0] + tail.0));
            assert(now.subrange(d1.len() as int, now.len() as int)
                =~= before.subrange(d1.len() as int, before.len() as int) + now.subrange(before.len() as int, now.len() as int));
            assert(diags_view(now.subrange(d1.len() as int, now.len() as int))
                =~= diags_view(before.subrange(d1.len() as int, before.len() as int)) + diags_view(now.subrange(before.len() as int, now.len() as int)));
            let db = diags_view(before.subrange(d1.len() as int, before.len() as int));
            assert(db + step.2 + tail.1 =~= db + (step.2 + tail.1));
        }
        proof {
            assert(rest@ =~= ms.skip(k + 1));
            lemma_grew_trans(d1, before, resolver.context().diags@);
            assert forall|q: int| 0 <= q < k + 1 implies (#[trigger] resolver.resolved()[q]).id == ms[q].id by {
                if q < k {
                    assert(resolver.resolved()[q] == resolver.resolved().take(r0.len() as int)[q]);
                }
            }
            assert forall|q: int| 0 <= q < k + 1 implies (#[trigger] resolver.resolved()[q]).functions@.map_values(|f: RFunction| fn_signature(f))
                == defined_fns(ft, ms[q].id, ms[q].program.items@) by {
                if q < k {
                    assert(resolver.resolved()[q] == resolver.resolved().take(r0.len() as int)[q]);
                    assert(r0[q] == resolver.resolved()[q]);
                } else {
                    assert(resolver.resolved()[q] == resolver.resolved().last());
                }
            }
            if (forall|q: int| 0 <= q < ms.len() ==> items_ast_ok((#[trigger] ms[q]).program.items@))
                && resolver.context().diags@.len() == d0.len() {
                assert(before.len() == d0.len());
                assert(items_ast_ok(ms[k as int].program.items@));
                assert forall|q: int, f: int| 0 <= q < k + 1 && 0 <= f < resolver.resolved()[q].functions@.len() implies
                    stmt_ok((#[trigger] resolver.resolved()[q].functions@[f]).body) by {
                    if q < k {
                        assert(resolver.resolved()[q] == resolver.resolved().take(r0.len() as int)[q]);
                        assert(r0[q] == resolver.resolved()[q]);
                    }
                }
            }
        }
        k += 1;
    }
    proof {
        lemma_grew_trans(d0, d1, resolver.context().diags@);
        let now = resolver.context().diags@;
        assert(ms.skip(k as int) =~= Seq::<LoadedModule>::empty());
        assert(now.subrange(d0.len() as int, now.len() as int)
            =~= d1.subrange(d0.len() as int, d1.len() as int) + now.subrange(d1.len() as int, now.len() as int));
        assert(diags_view(now.subrange(d0.len() as int, now.len() as int))
            =~= diags_view(d1.subrange(d0.len() as int, d1.len() as int)) + diags_view(now.subrange(d1.len() as int, now.len() as int)));
        assert(resolved_bodies(resolver.resolved()) =~= bodies_from(ms, names, ft, imps, 0).0);
    }
    assert(k == ms.len());
    resolver.into_parts()
}


/// The pieces of a rendered diagnostic, about its own file.
pub open spec fn diag_segments(d: Diag) -> Seq<(Paint, Seq<char>)> {
    rendered_segments(d.source_file.file_name()@, d.source_file.text(), diag_view(d))
}

/// The pieces of diagnostics rendered one after another.
pub open spec fn diags_segments(ds: Seq<Diag>) -> Seq<(Paint, Seq<char>)>
    decreases ds.len(),
{
    if ds.len() == 0 { Seq::empty() } else { diags_segments(ds.drop_last()) + diag_segments(ds.last()) }
}

/// Renders `diags` in order after what `out` holds, and tells whether any of
/// them is an error.
pub fn render_diags(diags: &Vec<Diag>, out: &mut String) -> (err: bool)
    requires
        forall|k: int| 0 <= k < diags@.len() ==> (#[trigger] diags@[k]).renderable(),
    ensures
        err == exists|k: int| 0 <= k < diags@.len() && (#[trigger] diags@[k]).severity == Severity::Error,
        exists|shown: Seq<Seq<char>>| painted_all(diags_segments(diags@), shown) && final(out)@ == old(out)@ + shown.flatten(),
{
    let ghost o0 = out@;
    let ghost mut shown: Seq<Seq<char>> = Seq::empty();
    let mut err = false;
    let mut k: usize = 0;
    assert(diags@.take(0) =~= Seq::<Diag>::empty());
    assert(painted_all(diags_segments(diags@.take(0)), shown));
    while k < diags.len()
        invariant
            k <= diags@.len(),
            forall|q: int| 0 <= q < diags@.len() ==> (#[trigger] diags@[q]).renderable(),
            err == exists|q: int| 0 <= q < k && (#[trigger] diags@[q]).severity == Severity::Error,
            painted_all(diags_segments(diags@.take(k as int)), shown),
            out@ == o0 + shown.flatten(),
        decreases diags@.len() - k,
    {
        let d = &diags[k];
        if matches!(d.severity, Severity::Error) {
            err = true;
        }
        let ghost before = out@;
        d.render(out);
        proof {
            let segs = diag_segments(*d);
            let sk = choose|sk: Seq<Seq<char>>| painted_all(segs, sk) && out@ == before + sk.flatten();
            let prev = diags_segments(diags@.take(k as int));
            assert(diags@.take(k + 1).drop_last() =~= diags@.take(k as int));
            assert(diags_segments(diags@.take(k + 1)) == prev + segs);
            vstd::seq_lib::lemma_flatten_concat(shown, sk);
            assert forall|q: int| 0 <= q < prev.len() + segs.len() implies
                painted((prev + segs)[q].0, (prev + segs)[q].1, #[trigger] (shown + sk)[q]) by {
                if q < prev.len() {
                    assert((shown + sk)[q] == shown[q]);
                } else {
                    assert((shown + sk)[q] == sk[q - prev.len()]);
                }
            }
            shown = shown + sk;
        }
        k += 1;
    }
    assert(diags@.take(k as int) =~= diags@);
    err
}

} // verus!
