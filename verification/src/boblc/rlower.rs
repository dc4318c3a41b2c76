//! Resolution: names to variables and functions, types checked, from the
//! syntax trees of all modules to the resolved program.
use std::rc::Rc;
use vstd::prelude::*;
use super::ast::{AsmItem, AsmOperand, Expr, ExprKind, ItemKind, LValue, Program, Register, Stmt, StmtKind};
use super::diag::{diag_view, diags_view, CompilerCtx, Diag, DiagModel, LabelModel, Severity};
use super::op::{binary_op_text, binary_res_ty, unary_op_text, unary_res_ty, BinaryOp, UnaryOp};
use super::rast::{FuncId, ModuleId, RAsmItem, RAsmOperand, RExpr, RExprKind, RFunction, RLValue, RModule, RProgram, RRegister, RStmt, VarId};
use super::source::{SourceFile, Span, Spanned};
use super::taclower::{args_ok, asm_ok, expr_ok, lval_ok, stmt_ok, stmts_ok};
use super::ty::{copy_ty, same_ty, ty_model, ty_text, tys_model, Ty, TyModel};
use super::archive::literalpool::push_chars;
use crate::text::{decimal, str_eq, string_of_chars, u64_decimal};

verus! {

/// Whether an expression of the syntax tree holds no error node.
pub open spec fn ast_expr_ok(e: Expr) -> bool
    decreases e,
{
    match e.inner {
        ExprKind::LValue(lv) => ast_lval_ok(*lv),
        ExprKind::Ref(lv) => ast_lval_ok(*lv.inner),
        ExprKind::Binary { left, right, .. } => ast_expr_ok(*left) && ast_expr_ok(*right),
        ExprKind::Unary { expr, .. } => ast_expr_ok(*expr),
        ExprKind::Assign { lval, expr } => ast_lval_ok(*lval.inner) && ast_expr_ok(*expr),
        ExprKind::Call { callee, params } => ast_expr_ok(*callee) && ast_exprs_ok(params@),
        ExprKind::Error => false,
        _ => true,
    }
}

/// Whether a place of the syntax tree holds no error node.
pub open spec fn ast_lval_ok(l: LValue) -> bool
    decreases l,
{
    match l {
        LValue::Var(_) => true,
        LValue::Deref(e) => ast_expr_ok(e),
        LValue::Error => false,
    }
}

/// Whether expressions of the syntax tree hold no error node.
pub open spec fn ast_exprs_ok(es: Seq<Expr>) -> bool
    decreases es,
{
    es.len() == 0 || (ast_expr_ok(es[0]) && ast_exprs_ok(es.subrange(1, es.len() as int)))
}

/// Whether a statement of the syntax tree holds no error node.
pub open spec fn ast_stmt_ok(s: Stmt) -> bool
    decreases s,
{
    match s.inner {
        StmtKind::Let { val, .. } => match val {
            Some(e) => ast_expr_ok(e),
            None => true,
        },
        StmtKind::Block(stmts) => ast_stmts_ok(stmts@),
        StmtKind::If { cond, then_branch, else_branch } => ast_expr_ok(cond) && ast_stmt_ok(*then_branch) && match else_branch {
            Some(eb) => ast_stmt_ok(*eb),
            None => true,
        },
        StmtKind::While { cond, body } => ast_expr_ok(cond) && ast_stmt_ok(*body),
        StmtKind::Expr(e) => ast_expr_ok(e),
        StmtKind::Asm(items) => ast_asm_ok(items@),
        StmtKind::Return(val) => match val {
            Some(e) => ast_expr_ok(e),
            None => true,
        },
        StmtKind::Error => false,
    }
}

/// Whether statements of the syntax tree hold no error node.
pub open spec fn ast_stmts_ok(ss: Seq<Stmt>) -> bool
    decreases ss,
{
    ss.len() == 0 || (ast_stmt_ok(ss[0]) && ast_stmts_ok(ss.subrange(1, ss.len() as int)))
}

/// Whether items of inline assembly of the syntax tree hold no error node.
pub open spec fn ast_asm_ok(items: Seq<Spanned<AsmItem>>) -> bool
    decreases items,
{
    items.len() == 0 || ((match items[0].inner {
        AsmItem::In { expr, .. } => ast_expr_ok(expr),
        AsmItem::Out { lval, .. } => ast_lval_ok(lval),
        AsmItem::Instr { args, .. } => forall|k: int| 0 <= k < args@.len() ==> !(args@[k].inner is Error),
        AsmItem::Error => false,
    }) && ast_asm_ok(items.subrange(1, items.len() as int)))
}

/// Whether a resolved expression is well typed: each literal has its type,
/// each operator the type its operands give, each assignment the type of
/// its place and value, each call the return type of its callee, whose
/// parameters its arguments match; and no node is an error.
pub open spec fn well_typed(e: RExpr) -> bool
    decreases e,
{
    let t = ty_model(e.ty);
    match e.kind {
        RExprKind::IntLit(_) | RExprKind::CharLit(_) => t == TyModel::Int,
        RExprKind::StrLit(_) => t == TyModel::Ptr(Box::new(TyModel::Int)),
        RExprKind::LValue(lv) => lval_typed(lv, t),
        RExprKind::Function(_) => true,
        RExprKind::Ref(lv) => match t {
            TyModel::Ptr(inner) => lval_typed(lv, *inner),
            _ => false,
        },
        RExprKind::Binary { left, op, right } =>
            well_typed(*left) && well_typed(*right) && binary_res_ty(op, ty_model(left.ty), ty_model(right.ty)) == Some(t),
        RExprKind::Unary { op, expr } => well_typed(*expr) && unary_res_ty(ty_model(expr.ty)) == Some(t),
        RExprKind::Assign { target, val } => well_typed(*val) && ty_model(val.ty) == t && lval_typed(target, t),
        RExprKind::Call { callee, args } => well_typed(*callee) && match ty_model(callee.ty) {
            TyModel::Func(params, ret) => *ret == t && args_typed(args@, params),
            _ => false,
        },
        RExprKind::Error => false,
    }
}

/// Whether a resolved place holds values of type `t`: a variable, or a
/// dereference of a well-typed pointer to `t`.
pub open spec fn lval_typed(lv: RLValue, t: TyModel) -> bool
    decreases lv,
{
    match lv {
        RLValue::Var(_) => true,
        RLValue::Deref(e) => well_typed(*e) && ty_model(e.ty) == TyModel::Ptr(Box::new(t)),
        RLValue::Error => false,
    }
}

/// Whether arguments are well typed and of the parameters' types.
pub open spec fn args_typed(args: Seq<RExpr>, params: Seq<TyModel>) -> bool
    decreases args,
{
    if args.len() == 0 {
        params.len() == 0
    } else {
        params.len() > 0 && well_typed(args[0]) && ty_model(args[0].ty) == params[0]
            && args_typed(args.subrange(1, args.len() as int), params.subrange(1, params.len() as int))
    }
}

/// A well-typed expression has no error node, so it can be lowered.
pub proof fn lemma_well_typed_ok(e: RExpr)
    requires
        well_typed(e),
    ensures
        expr_ok(e),
    decreases e,
{
    match e.kind {
        RExprKind::LValue(lv) => lemma_lval_typed_ok(lv, ty_model(e.ty)),
        RExprKind::Ref(lv) => {
            if let TyModel::Ptr(inner) = ty_model(e.ty) {
                lemma_lval_typed_ok(lv, *inner);
            }
        },
        RExprKind::Binary { left, right, .. } => {
            lemma_well_typed_ok(*left);
            lemma_well_typed_ok(*right);
        },
        RExprKind::Unary { expr, .. } => lemma_well_typed_ok(*expr),
        RExprKind::Assign { target, val } => {
            lemma_well_typed_ok(*val);
            lemma_lval_typed_ok(target, ty_model(e.ty));
        },
        RExprKind::Call { callee, args } => {
            lemma_well_typed_ok(*callee);
            if let TyModel::Func(params, _) = ty_model(callee.ty) {
                lemma_args_typed_ok(args@, params);
            }
        },
        _ => {},
    }
}

/// A place that holds values of some type has no error node.
pub proof fn lemma_lval_typed_ok(lv: RLValue, t: TyModel)
    requires
        lval_typed(lv, t),
    ensures
        lval_ok(lv),
    decreases lv,
{
    if let RLValue::Deref(e) = lv {
        lemma_well_typed_ok(*e);
    }
}

/// Well-typed arguments have no error node.
pub proof fn lemma_args_typed_ok(args: Seq<RExpr>, params: Seq<TyModel>)
    requires
        args_typed(args, params),
    ensures
        args_ok(args),
    decreases args,
{
    if args.len() > 0 {
        lemma_well_typed_ok(args[0]);
        lemma_args_typed_ok(args.subrange(1, args.len() as int), params.subrange(1, params.len() as int));
    }
}

/// The number of variables a statement declares.
pub open spec fn lets_in(s: Stmt) -> nat
    decreases s,
{
    match s.inner {
        StmtKind::Let { .. } => 1,
        StmtKind::Block(stmts) => lets_in_all(stmts@),
        StmtKind::If { then_branch, else_branch, .. } => lets_in(*then_branch) + match else_branch {
            Some(eb) => lets_in(*eb),
            None => 0,
        },
        StmtKind::While { body, .. } => lets_in(*body),
        _ => 0,
    }
}

/// The number of variables statements declare.
pub open spec fn lets_in_all(ss: Seq<Stmt>) -> nat
    decreases ss,
{
    if ss.len() == 0 { 0 } else { lets_in(ss[0]) + lets_in_all(ss.subrange(1, ss.len() as int)) }
}


/// Whether `new` holds the diagnostics of `old` and maybe more after them.
pub open spec fn grew(new: Seq<Diag>, old: Seq<Diag>) -> bool {
    old.len() <= new.len() && new.subrange(0, old.len() as int) == old
}

pub(crate) proof fn lemma_grew_trans(a: Seq<Diag>, b: Seq<Diag>, c: Seq<Diag>)
    requires
        grew(b, a),
        grew(c, b),
    ensures
        grew(c, a),
{
    assert(c.subrange(0, a.len() as int) =~= c.subrange(0, b.len() as int).subrange(0, a.len() as int));
}

pub(crate) proof fn lemma_grew_refl(a: Seq<Diag>)
    ensures
        grew(a, a),
{
    assert(a.subrange(0, a.len() as int) =~= a);
}

/// What the resolver knows of a variable in scope.
struct VarInfo {
    id: VarId,
    ty: Ty,
}

/// What the resolver knows of a function.
struct FuncInfo {
    id: FuncId,
    ty: Ty,
}

/// The next function and variable numbers.
struct ResolverIds {
    next_func: u32,
    next_var: u32,
}

/// A resolver of the modules of a program.
pub struct Resolver {
    pub ctx: CompilerCtx,
    ids: ResolverIds,
    modules: Vec<RModule>,
    module_names: Vec<(String, ModuleId)>,
    functions: Vec<(ModuleId, Vec<(String, FuncInfo)>)>,
    module_imports: Vec<(ModuleId, Vec<ModuleId>)>,
    current_module: ModuleId,
    current_locals: Vec<Ty>,
    scopes: Vec<Vec<(String, VarInfo)>>,
}

/// An error expression.
fn err_rexpr() -> (r: RExpr)
    ensures
        r.kind is Error,
        rexpr_model(r) == err_model(),
{
    RExpr { kind: RExprKind::Error, ty: Ty::Unit }
}

/// The first entry whose key is `key`, where there is one.
pub open spec fn first_index_of<K, V>(es: Seq<(K, V)>, key: K) -> Option<int> {
    if exists|k: int| 0 <= k < es.len() && es[k].0 == key {
        Some(choose|k: int| 0 <= k < es.len() && es[k].0 == key && forall|j: int| 0 <= j < k ==> es[j].0 != key)
    } else {
        None
    }
}

/// A first entry with a key is the one `first_index_of` names.
proof fn lemma_first_index_of<K, V>(es: Seq<(K, V)>, key: K, k: int)
    requires
        0 <= k < es.len(),
        es[k].0 == key,
        forall|j: int| 0 <= j < k ==> es[j].0 != key,
    ensures
        first_index_of(es, key) == Some(k),
{
    let c = choose|c: int| 0 <= c < es.len() && es[c].0 == key && forall|j: int| 0 <= j < c ==> es[j].0 != key;
    assert(0 <= c < es.len() && es[c].0 == key && forall|j: int| 0 <= j < c ==> es[j].0 != key);
    if c < k {
        assert(es[c].0 != key);
    }
    if k < c {
        assert(es[k].0 != key);
    }
}

/// `es` with `key` bound to `v`: the first entry of that key replaced, or
/// else a new entry at the end.
pub open spec fn upsert<K, V>(es: Seq<(K, V)>, key: K, v: V) -> Seq<(K, V)> {
    match first_index_of(es, key) {
        Some(k) => es.update(k, (key, v)),
        None => es.push((key, v)),
    }
}

/// Where some entry has a key, one has it with no earlier one.
proof fn lemma_least_index<K, V>(a: Seq<(K, V)>, key: K, w: int)
    requires
        0 <= w < a.len(),
        a[w].0 == key,
    ensures
        exists|k: int| 0 <= k < a.len() && a[k].0 == key && forall|j: int| 0 <= j < k ==> a[j].0 != key,
    decreases w,
{
    if exists|j: int| 0 <= j < w && a[j].0 == key {
        let j = choose|j: int| 0 <= j < w && a[j].0 == key;
        lemma_least_index(a, key, j);
    } else {
        assert(0 <= w < a.len() && a[w].0 == key && forall|j: int| 0 <= j < w ==> a[j].0 != key);
    }
}

/// The entry `first_index_of` names is in range and has the key.
proof fn lemma_first_index_some<K, V>(a: Seq<(K, V)>, key: K)
    ensures
        first_index_of(a, key) matches Some(k) ==> 0 <= k < a.len() && a[k].0 == key,
{
    if exists|w: int| 0 <= w < a.len() && a[w].0 == key {
        let w = choose|w: int| 0 <= w < a.len() && a[w].0 == key;
        lemma_least_index(a, key, w);
    }
}

/// Lists of imports by module, the lists as sequences.
pub open spec fn imports_view(v: Seq<(ModuleId, Vec<ModuleId>)>) -> Seq<(ModuleId, Seq<ModuleId>)> {
    v.map_values(|e: (ModuleId, Vec<ModuleId>)| (e.0, e.1@))
}

/// Entries with text keys, their keys as characters.
pub open spec fn keyed<V>(es: Seq<(String, V)>) -> Seq<(Seq<char>, V)> {
    es.map_values(|e: (String, V)| (e.0@, e.1))
}

/// The register of the resolved tree for a register of the syntax tree.
pub open spec fn rreg_of(r: Register) -> RRegister {
    match r {
        Register::R0 => RRegister::R0,
        Register::R1 => RRegister::R1,
        Register::R2 => RRegister::R2,
        Register::R3 => RRegister::R3,
        Register::R4 => RRegister::R4,
        Register::R5 => RRegister::R5,
        Register::R6 => RRegister::R6,
        Register::R7 => RRegister::R7,
    }
}

/// The machine register of a register of the syntax tree.
fn conv_reg(r: Register) -> (t: RRegister)
    ensures
        t == rreg_of(r),
{
    match r {
        Register::R0 => RRegister::R0,
        Register::R1 => RRegister::R1,
        Register::R2 => RRegister::R2,
        Register::R3 => RRegister::R3,
        Register::R4 => RRegister::R4,
        Register::R5 => RRegister::R5,
        Register::R6 => RRegister::R6,
        Register::R7 => RRegister::R7,
    }
}

/// A copy of what is known of a variable.
fn copy_var(v: &VarInfo) -> (r: VarInfo)
    ensures
        r.id == v.id,
        ty_model(r.ty) == ty_model(v.ty),
{
    VarInfo { id: v.id, ty: copy_ty(&v.ty) }
}

/// A copy of what is known of a function.
fn copy_func(f: &FuncInfo) -> (r: FuncInfo)
    ensures
        r.id == f.id,
        ty_model(r.ty) == ty_model(f.ty),
{
    FuncInfo { id: f.id, ty: copy_ty(&f.ty) }
}

/// A scope as names bound to variable numbers and types' models, in order.
spec fn scope_model(v: Vec<(String, VarInfo)>) -> Seq<(Seq<char>, (VarId, TyModel))> {
    v@.map_values(|e: (String, VarInfo)| (e.0@, (e.1.id, ty_model(e.1.ty))))
}

/// The scopes as models, outermost first.
spec fn scopes_model(s: Seq<Vec<(String, VarInfo)>>) -> Seq<Seq<(Seq<char>, (VarId, TyModel))>> {
    s.map_values(|v: Vec<(String, VarInfo)>| scope_model(v))
}

/// The variable named `name` in the innermost scope that has one, the first
/// such entry of that scope: its number and type.
pub open spec fn var_lookup(scopes: Seq<Seq<(Seq<char>, (VarId, TyModel))>>, name: Seq<char>) -> Option<(VarId, TyModel)>
    decreases scopes.len(),
{
    if scopes.len() == 0 {
        None
    } else {
        match first_index_of(scopes.last(), name) {
            Some(k) => Some(scopes.last()[k].1),
            None => var_lookup(scopes.drop_last(), name),
        }
    }
}

impl Resolver {
    /// Whether only the diagnostics of `self` differ from `old`, and only
    /// by more of them.
    spec fn same_tables(&self, old: &Self) -> bool {
        &&& self.ctx.source == old.ctx.source
        &&& grew(self.ctx.diags@, old.ctx.diags@)
        &&& self.ids == old.ids
        &&& self.modules == old.modules
        &&& self.module_names == old.module_names
        &&& self.functions == old.functions
        &&& self.module_imports == old.module_imports
        &&& self.current_module == old.current_module
        &&& self.current_locals == old.current_locals
        &&& self.scopes == old.scopes
    }

    /// Whether no diagnostic was added since `old`.
    spec fn quiet_since(&self, old: &Self) -> bool {
        self.ctx.diags@.len() == old.ctx.diags@.len()
    }

    /// Records an error with an important label.
    fn error(&mut self, message: String, span: Span)
        ensures
            final(self).same_tables(old(self)),
            !final(self).quiet_since(old(self)),
            final(self).added(old(self)) == seq![error_diag(message@, span)],
    {
        let d = Diag::new(&self.ctx.source, message).with_label(span, true);
        let ghost dv = diag_view(d);
        proof {
            assert(dv.labels =~= seq![LabelModel { message: None, span, important: true }]);
            assert(dv.helps =~= Seq::<Seq<char>>::empty());
        }
        self.ctx.emit_diag(d);
        proof {
            assert(self.ctx.diags@.subrange(0, old(self).ctx.diags@.len() as int) =~= old(self).ctx.diags@);
            assert(self.ctx.diags@.subrange(old(self).ctx.diags@.len() as int, self.ctx.diags@.len() as int) =~= seq![d]);
            assert(self.added(old(self)) =~= seq![error_diag(message@, span)]);
        }
    }

    /// Records an error with an important label with a message.
    fn error_labelled(&mut self, message: String, label: String, span: Span)
        ensures
            final(self).same_tables(old(self)),
            !final(self).quiet_since(old(self)),
            final(self).added(old(self)) == seq![labelled_diag(message@, label@, span)],
    {
        let ghost lv = label@;
        let d = Diag::new(&self.ctx.source, message).with_message_label(label, span, true);
        let ghost dv = diag_view(d);
        proof {
            assert(dv.labels =~= seq![LabelModel { message: Some(lv), span, important: true }]);
            assert(dv.helps =~= Seq::<Seq<char>>::empty());
        }
        self.ctx.emit_diag(d);
        proof {
            assert(self.ctx.diags@.subrange(0, old(self).ctx.diags@.len() as int) =~= old(self).ctx.diags@);
            assert(self.ctx.diags@.subrange(old(self).ctx.diags@.len() as int, self.ctx.diags@.len() as int) =~= seq![d]);
            assert(self.added(old(self)) =~= seq![labelled_diag(message@, lv, span)]);
        }
    }

    /// The innermost variable in scope named `name`.
    fn find_var(&self, name: &str) -> (r: Option<VarInfo>)
        ensures
            match var_lookup(scopes_model(self.scopes@), name@) {
                Some(v) => r matches Some(x) && x.id == v.0 && ty_model(x.ty) == v.1,
                None => r is None,
            },
    {
        let ghost sm = scopes_model(self.scopes@);
        let mut i = self.scopes.len();
        assert(sm.take(i as int) =~= sm);
        while i > 0
            invariant
                sm == scopes_model(self.scopes@),
                i <= self.scopes@.len(),
                var_lookup(sm, name@) == var_lookup(sm.take(i as int), name@),
            decreases i,
        {
            i -= 1;
            let scope = &self.scopes[i];
            let ghost es = scope_model(*scope);
            assert(sm[i as int] == es);
            let mut j: usize = 0;
            while j < scope.len()
                invariant
                    es == scope_model(*scope),
                    sm == scopes_model(self.scopes@),
                    i < self.scopes@.len(),
                    sm[i as int] == es,
                    var_lookup(sm, name@) == var_lookup(sm.take(i + 1), name@),
                    j <= scope@.len(),
                    forall|q: int| 0 <= q < j ==> es[q].0 != name@,
                decreases scope@.len() - j,
            {
                assert(es[j as int].0 == scope@[j as int].0@);
                if str_eq(scope[j].0.as_str(), name) {
                    proof {
                        lemma_first_index_of(es, name@, j as int);
                        let t = sm.take(i + 1);
                        assert(t.last() == sm[i as int]);
                    }
                    return Some(copy_var(&scope[j].1));
                }
                j += 1;
            }
            proof {
                if exists|k: int| 0 <= k < es.len() && es[k].0 == name@ {
                    let k = choose|k: int| 0 <= k < es.len() && es[k].0 == name@;
                    assert(es[k].0 != name@);
                }
                let t = sm.take(i + 1);
                assert(t.last() == sm[i as int]);
                assert(t.drop_last() =~= sm.take(i as int));
            }
        }
        proof { assert(sm.take(0) =~= Seq::<Seq<(Seq<char>, (VarId, TyModel))>>::empty()); }
        None
    }

    /// The function named `name` in module `module`: looked up in the first
    /// table of that module.
    fn find_func_in(&self, module: ModuleId, name: &str) -> (r: Option<FuncInfo>)
        ensures
            match table_lookup(tables_view(self.functions@), module, name@) {
                Some(e) => r matches Some(x) && x.id == e.0 && ty_model(x.ty) == e.1,
                None => r is None,
            },
    {
        let ghost tv = tables_view(self.functions@);
        let mut i: usize = 0;
        while i < self.functions.len()
            invariant
                tv == tables_view(self.functions@),
                i <= self.functions@.len(),
                forall|q: int| 0 <= q < i ==> tv[q].0 != module,
            decreases self.functions@.len() - i,
        {
            assert(tv[i as int].0 == self.functions@[i as int].0);
            if self.functions[i].0 == module {
                proof { lemma_first_index_of(tv, module, i as int); }
                let fns = &self.functions[i].1;
                let ghost es = fn_entries(fns@);
                assert(tv[i as int].1 == es);
                let mut j: usize = 0;
                while j < fns.len()
                    invariant
                        es == fn_entries(fns@),
                        i < self.functions@.len(),
                        tv == tables_view(self.functions@),
                        first_index_of(tv, module) == Some(i as int),
                        tv[i as int].1 == es,
                        j <= fns@.len(),
                        forall|q: int| 0 <= q < j ==> es[q].0 != name@,
                    decreases fns@.len() - j,
                {
                    assert(es[j as int].0 == fns@[j as int].0@);
                    if str_eq(fns[j].0.as_str(), name) {
                        proof { lemma_first_index_of(es, name@, j as int); }
                        return Some(copy_func(&fns[j].1));
                    }
                    j += 1;
                }
                proof {
                    if exists|k: int| 0 <= k < es.len() && es[k].0 == name@ {
                        let k = choose|k: int| 0 <= k < es.len() && es[k].0 == name@;
                        assert(es[k].0 != name@);
                    }
                }
                return None;
            }
            i += 1;
        }
        proof {
            if exists|k: int| 0 <= k < tv.len() && tv[k].0 == module {
                let k = choose|k: int| 0 <= k < tv.len() && tv[k].0 == module;
                assert(tv[k].0 != module);
            }
        }
        None
    }

    /// The module named `name`: the first registered under that name.
    fn find_module(&self, name: &str) -> (r: Option<ModuleId>)
        ensures
            match first_index_of(keyed(self.module_names@), name@) {
                Some(k) => r == Some(keyed(self.module_names@)[k].1),
                None => r is None,
            },
    {
        let ghost es = keyed(self.module_names@);
        let mut i: usize = 0;
        while i < self.module_names.len()
            invariant
                es == keyed(self.module_names@),
                i <= self.module_names@.len(),
                forall|q: int| 0 <= q < i ==> es[q].0 != name@,
            decreases self.module_names@.len() - i,
        {
            assert(es[i as int] == (self.module_names@[i as int].0@, self.module_names@[i as int].1));
            if str_eq(self.module_names[i].0.as_str(), name) {
                proof { lemma_first_index_of(es, name@, i as int); }
                return Some(self.module_names[i].1);
            }
            i += 1;
        }
        proof {
            if exists|k: int| 0 <= k < es.len() && es[k].0 == name@ {
                let k = choose|k: int| 0 <= k < es.len() && es[k].0 == name@;
                assert(es[k].0 != name@);
            }
        }
        None
    }

    /// Whether module `current` imports module `target`, by the first list
    /// of imports of `current`.
    fn imports(&self, current: ModuleId, target: ModuleId) -> (r: bool)
        ensures
            r == match first_index_of(imports_view(self.module_imports@), current) {
                Some(m) => imports_view(self.module_imports@)[m].1.contains(target),
                None => false,
            },
    {
        let ghost iv = imports_view(self.module_imports@);
        let mut i: usize = 0;
        while i < self.module_imports.len()
            invariant
                iv == imports_view(self.module_imports@),
                i <= self.module_imports@.len(),
                forall|q: int| 0 <= q < i ==> iv[q].0 != current,
            decreases self.module_imports@.len() - i,
        {
            assert(iv[i as int] == (self.module_imports@[i as int].0, self.module_imports@[i as int].1@));
            if self.module_imports[i].0 == current {
                proof { lemma_first_index_of(iv, current, i as int); }
                let list = &self.module_imports[i].1;
                let mut j: usize = 0;
                while j < list.len()
                    invariant
                        iv == imports_view(self.module_imports@),
                        i < self.module_imports@.len(),
                        list@ == iv[i as int].1,
                        first_index_of(iv, current) == Some(i as int),
                        j <= list@.len(),
                        forall|q: int| 0 <= q < j ==> list@[q] != target,
                    decreases list@.len() - j,
                {
                    if list[j] == target {
                        proof { assert(list@[j as int] == target); }
                        return true;
                    }
                    j += 1;
                }
                proof {
                    if list@.contains(target) {
                        let q = choose|q: int| 0 <= q < list@.len() && list@[q] == target;
                        assert(list@[q] != target);
                    }
                }
                return false;
            }
            i += 1;
        }
        proof {
            if exists|k: int| 0 <= k < iv.len() && iv[k].0 == current {
                let k = choose|k: int| 0 <= k < iv.len() && iv[k].0 == current;
                assert(iv[k].0 != current);
            }
        }
        false
    }
}

/// Pieces of text, one after another.
pub open spec fn joined<'a>(parts: Seq<&'a str>) -> Seq<char>
    decreases parts.len(),
{
    if parts.len() == 0 {
        Seq::empty()
    } else {
        joined(parts.drop_last()) + parts.last()@
    }
}

/// Text built from pieces.
fn text_of(parts: &[&str]) -> (s: String)
    ensures
        s@ == joined(parts@),
{
    let mut buf: Vec<char> = Vec::new();
    let mut k: usize = 0;
    assert(parts@.take(0) =~= Seq::<&str>::empty());
    while k < parts.len()
        invariant
            k <= parts@.len(),
            buf@ == joined(parts@.take(k as int)),
        decreases parts@.len() - k,
    {
        push_chars(&mut buf, parts[k]);
        proof {
            assert(parts@.take(k + 1).drop_last() =~= parts@.take(k as int));
            assert(parts@.take(k + 1).last() == parts@[k as int]);
        }
        k += 1;
    }
    assert(parts@.take(parts@.len() as int) =~= parts@);
    string_of_chars(buf.as_slice())
}


/// Arguments that are each well typed and of their parameter's type are
/// well typed together.
proof fn lemma_args_typed(args: Seq<RExpr>, params: Seq<TyModel>)
    requires
        args.len() == params.len(),
        forall|k: int| 0 <= k < args.len() ==> well_typed(#[trigger] args[k]) && ty_model(args[k].ty) == params[k],
    ensures
        args_typed(args, params),
    decreases args.len(),
{
    if args.len() > 0 {
        let ra = args.subrange(1, args.len() as int);
        let rp = params.subrange(1, params.len() as int);
        assert forall|k: int| 0 <= k < ra.len() implies well_typed(#[trigger] ra[k]) && ty_model(ra[k].ty) == rp[k] by {
            assert(ra[k] == args[k + 1]);
        }
        lemma_args_typed(ra, rp);
    }
}

/// The mathematical form of a resolved place.
pub enum RLValueM {
    Var(VarId),
    Deref(Box<RExprM>),
    Error,
}

/// The mathematical form of the kind of a resolved expression.
pub enum RExprKindM {
    IntLit(u16),
    CharLit(char),
    StrLit(Seq<char>),
    LValue(RLValueM),
    Function(FuncId),
    Ref(RLValueM),
    Binary(Box<RExprM>, BinaryOp, Box<RExprM>),
    Unary(UnaryOp, Box<RExprM>),
    Assign(RLValueM, Box<RExprM>),
    Call(Box<RExprM>, Seq<RExprM>),
    Error,
}

/// The mathematical form of a resolved expression and its type.
pub struct RExprM {
    pub kind: RExprKindM,
    pub ty: TyModel,
}

/// The mathematical form of a resolved expression: the same tree, with
/// sequences for lists and models for types.
pub open spec fn rexpr_model(e: RExpr) -> RExprM
    decreases e, 1nat,
{
    let kind = match e.kind {
        RExprKind::IntLit(i) => RExprKindM::IntLit(i),
        RExprKind::CharLit(c) => RExprKindM::CharLit(c),
        RExprKind::StrLit(v) => RExprKindM::StrLit(v@),
        RExprKind::LValue(lv) => RExprKindM::LValue(rlval_model(lv)),
        RExprKind::Function(id) => RExprKindM::Function(id),
        RExprKind::Ref(lv) => RExprKindM::Ref(rlval_model(lv)),
        RExprKind::Binary { left, op, right } =>
            RExprKindM::Binary(Box::new(rexpr_model(*left)), op, Box::new(rexpr_model(*right))),
        RExprKind::Unary { op, expr } => RExprKindM::Unary(op, Box::new(rexpr_model(*expr))),
        RExprKind::Assign { target, val } => RExprKindM::Assign(rlval_model(target), Box::new(rexpr_model(*val))),
        RExprKind::Call { callee, args } => RExprKindM::Call(Box::new(rexpr_model(*callee)), rexprs_model(args)),
        RExprKind::Error => RExprKindM::Error,
    };
    RExprM { kind, ty: ty_model(e.ty) }
}

/// The mathematical form of a resolved place.
pub open spec fn rlval_model(l: RLValue) -> RLValueM
    decreases l, 1nat,
{
    match l {
        RLValue::Var(id) => RLValueM::Var(id),
        RLValue::Deref(e) => RLValueM::Deref(Box::new(rexpr_model(*e))),
        RLValue::Error => RLValueM::Error,
    }
}

/// The mathematical forms of resolved expressions.
pub open spec fn rexprs_model(v: Vec<RExpr>) -> Seq<RExprM>
    decreases v, 0nat,
{
    Seq::new(v@.len(), |i: int| if 0 <= i < v@.len() { rexpr_model(v@[i]) } else { err_model() })
}

/// The error expression.
pub open spec fn err_model() -> RExprM {
    RExprM { kind: RExprKindM::Error, ty: TyModel::Unit }
}

/// An error with `message` and one important label without text at `span`.
pub open spec fn error_diag(message: Seq<char>, span: Span) -> DiagModel {
    DiagModel {
        severity: Severity::Error,
        message,
        labels: seq![LabelModel { message: None, span, important: true }],
        helps: Seq::empty(),
    }
}

/// An error with `message` and one important label reading `label` at `span`.
pub open spec fn labelled_diag(message: Seq<char>, label: Seq<char>, span: Span) -> DiagModel {
    DiagModel {
        severity: Severity::Error,
        message,
        labels: seq![LabelModel { message: Some(label), span, important: true }],
        helps: Seq::empty(),
    }
}

/// The type errors of the arguments against the parameters, for the first
/// `n` positions: one diagnostic for each argument of another type.
pub open spec fn mismatches(args: Seq<RExprM>, params: Seq<TyModel>, span: Span, n: nat) -> Seq<DiagModel>
    decreases n,
{
    if n == 0 {
        Seq::empty()
    } else {
        let k = n - 1;
        let prev = mismatches(args, params, span, k as nat);
        if args[k].ty != params[k] {
            prev.push(labelled_diag(
                "type mismatch"@,
                "argument "@ + decimal(n) + " has type "@ + ty_text(args[k].ty) + ", expected "@ + ty_text(params[k]),
                span,
            ))
        } else {
            prev
        }
    }
}

/// What the resolver knows when it resolves an expression: the scopes, the
/// module names and function tables, the imports and the current module.
struct Tables {
    scopes: Seq<Seq<(Seq<char>, (VarId, TyModel))>>,
    module_names: Seq<(Seq<char>, ModuleId)>,
    functions: Seq<(ModuleId, Seq<(Seq<char>, (FuncId, TyModel))>)>,
    module_imports: Seq<(ModuleId, Seq<ModuleId>)>,
    current_module: ModuleId,
}

impl Tables {
    /// The function named `name` in the first table of `module`.
    spec fn func_lookup(self, module: ModuleId, name: Seq<char>) -> Option<(FuncId, TyModel)> {
        table_lookup(self.functions, module, name)
    }

    /// The module first registered under `name`.
    spec fn module_lookup(self, name: Seq<char>) -> Option<ModuleId> {
        match first_index_of(self.module_names, name) {
            Some(k) => Some(self.module_names[k].1),
            None => None,
        }
    }

    /// Whether the first list of imports of `current` holds `target`.
    spec fn imports_spec(self, current: ModuleId, target: ModuleId) -> bool {
        match first_index_of(self.module_imports, current) {
            Some(m) => self.module_imports[m].1.contains(target),
            None => false,
        }
    }

    /// A name: the innermost variable of that name, else a function of the
    /// current module, else an error.
    spec fn res_name(self, name: Seq<char>, span: Span) -> (RExprM, Seq<DiagModel>) {
        match var_lookup(self.scopes, name) {
            Some(v) => (RExprM { kind: RExprKindM::LValue(RLValueM::Var(v.0)), ty: v.1 }, Seq::empty()),
            None => match self.func_lookup(self.current_module, name) {
                Some(f) => (RExprM { kind: RExprKindM::Function(f.0), ty: f.1 }, Seq::empty()),
                None => (err_model(), seq![error_diag("unknown name "@ + name, span)]),
            },
        }
    }

    /// A path `module::item`.
    spec fn res_path(self, path: Seq<Spanned<String>>) -> (RExprM, Seq<DiagModel>) {
        if path.len() != 2 {
            let span = if path.len() > 0 { path[0].span } else { Span { lo: 0, hi: 0 } };
            (err_model(), seq![error_diag("expected a path of the form `module::item`"@, span)])
        } else {
            let m = path[0];
            let item = path[1];
            match self.module_lookup(m.inner@) {
                None => (err_model(), seq![error_diag("unknown module `"@ + m.inner@ + "`"@, m.span)]),
                Some(t) => if !(t == self.current_module || self.imports_spec(self.current_module, t)) {
                    (
                        err_model(),
                        seq![labelled_diag(
                            "module `"@ + m.inner@ + "` was not imported"@,
                            "add `import` for this module before using it"@,
                            m.span,
                        )],
                    )
                } else {
                    match self.func_lookup(t, item.inner@) {
                        Some(f) => (RExprM { kind: RExprKindM::Function(f.0), ty: f.1 }, Seq::empty()),
                        None => (
                            err_model(),
                            seq![error_diag("no function `"@ + item.inner@ + "` in module `"@ + m.inner@ + "`"@, item.span)],
                        ),
                    }
                },
            }
        }
    }

    /// A place, the type of its values, and the diagnostics it gives.
    spec fn res_lval(self, l: LValue, span: Span) -> (RLValueM, TyModel, Seq<DiagModel>)
        decreases l,
    {
        match l {
            LValue::Var(name) => match var_lookup(self.scopes, name@) {
                Some(v) => (RLValueM::Var(v.0), v.1, Seq::empty()),
                None => (RLValueM::Error, TyModel::Unit, seq![error_diag("unknown variable "@ + name@, span)]),
            },
            LValue::Deref(e) => {
                let (r, d) = self.res_expr(e);
                if r.kind is Error {
                    (RLValueM::Error, TyModel::Unit, d)
                } else {
                    match r.ty {
                        TyModel::Ptr(inner) => (RLValueM::Deref(Box::new(r)), *inner, d),
                        _ => (
                            RLValueM::Error,
                            TyModel::Unit,
                            d.push(labelled_diag(
                                "dereference of a non-pointer"@,
                                "dereferenced a value with type "@ + ty_text(r.ty) + " here, which is not a pointer"@,
                                span,
                            )),
                        ),
                    }
                }
            },
            LValue::Error => (RLValueM::Error, TyModel::Unit, Seq::empty()),
        }
    }

    /// Arguments, resolved in order, and the diagnostics they give.
    spec fn res_args(self, ps: Seq<Expr>) -> (Seq<RExprM>, Seq<DiagModel>)
        decreases ps,
    {
        if ps.len() == 0 {
            (Seq::empty(), Seq::empty())
        } else {
            let (a, d) = self.res_expr(ps[0]);
            let (rest, dr) = self.res_args(ps.subrange(1, ps.len() as int));
            (seq![a] + rest, d + dr)
        }
    }

    /// An expression, resolved and type checked, and the diagnostics it gives.
    spec fn res_expr(self, e: Expr) -> (RExprM, Seq<DiagModel>)
        decreases e,
    {
        match e.inner {
            ExprKind::IntLit(i) => (RExprM { kind: RExprKindM::IntLit(i), ty: TyModel::Int }, Seq::empty()),
            ExprKind::CharLit(c) => (RExprM { kind: RExprKindM::CharLit(c), ty: TyModel::Int }, Seq::empty()),
            ExprKind::StrLit(v) => (
                RExprM { kind: RExprKindM::StrLit(v@), ty: TyModel::Ptr(Box::new(TyModel::Int)) },
                Seq::empty(),
            ),
            ExprKind::LValue(lval) => match *lval {
                LValue::Var(name) => self.res_name(name@, e.span),
                other => {
                    let (l, t, d) = self.res_lval(other, e.span);
                    if l is Error { (err_model(), d) } else { (RExprM { kind: RExprKindM::LValue(l), ty: t }, d) }
                },
            },
            ExprKind::Ref(sl) => {
                let (l, t, d) = self.res_lval(*sl.inner, sl.span);
                if l is Error {
                    (err_model(), d)
                } else {
                    (RExprM { kind: RExprKindM::Ref(l), ty: TyModel::Ptr(Box::new(t)) }, d)
                }
            },
            ExprKind::Path(path) => self.res_path(path@),
            ExprKind::Binary { left, op, right } => {
                let (a, da) = self.res_expr(*left);
                let (b, db) = self.res_expr(*right);
                if a.kind is Error || b.kind is Error {
                    (err_model(), da + db)
                } else {
                    match binary_res_ty(op, a.ty, b.ty) {
                        Some(t) => (RExprM { kind: RExprKindM::Binary(Box::new(a), op, Box::new(b)), ty: t }, da + db),
                        None => (
                            err_model(),
                            (da + db).push(labelled_diag(
                                "incompatible types in binary expression"@,
                                binary_op_text(op) + " cannot be used with "@ + ty_text(a.ty) + " and "@ + ty_text(b.ty),
                                e.span,
                            )),
                        ),
                    }
                }
            },
            ExprKind::Unary { op, expr } => {
                let (a, d) = self.res_expr(*expr);
                if a.kind is Error {
                    (a, d)
                } else {
                    match unary_res_ty(a.ty) {
                        Some(t) => (RExprM { kind: RExprKindM::Unary(op, Box::new(a)), ty: t }, d),
                        None => (
                            err_model(),
                            d.push(labelled_diag(
                                "incompatible type in unary expression"@,
                                unary_op_text(op) + " cannot be used with "@ + ty_text(a.ty),
                                e.span,
                            )),
                        ),
                    }
                }
            },
            ExprKind::Assign { lval, expr } => {
                let (l, lt, dl) = self.res_lval(*lval.inner, lval.span);
                let (v, dv) = self.res_expr(*expr);
                if l is Error {
                    (err_model(), dl + dv)
                } else if v.kind is Error {
                    (v, dl + dv)
                } else if v.ty == lt {
                    (RExprM { kind: RExprKindM::Assign(l, Box::new(v)), ty: lt }, dl + dv)
                } else {
                    (
                        err_model(),
                        (dl + dv).push(labelled_diag(
                            "type mismatch"@,
                            "cannot assign value of type "@ + ty_text(v.ty) + " to place of type "@ + ty_text(lt),
                            e.span,
                        )),
                    )
                }
            },
            ExprKind::Call { callee, params } => {
                let (c, dc) = self.res_expr(*callee);
                if c.kind is Error {
                    (c, dc)
                } else {
                    let (args, da) = self.res_args(params@);
                    if exists|k: int| 0 <= k < args.len() && (#[trigger] args[k]).kind is Error {
                        (err_model(), dc + da)
                    } else {
                        match c.ty {
                            TyModel::Func(ps, ret) => {
                                let dn = if args.len() != ps.len() {
                                    seq![labelled_diag(
                                        "incorrect number of arguments"@,
                                        "expected "@ + decimal(ps.len()) + " arguments, got "@ + decimal(args.len()),
                                        e.span,
                                    )]
                                } else {
                                    Seq::empty()
                                };
                                let n = if args.len() < ps.len() { args.len() } else { ps.len() };
                                let dm = mismatches(args, ps, e.span, n);
                                if dn.len() == 0 && dm.len() == 0 {
                                    (RExprM { kind: RExprKindM::Call(Box::new(c), args), ty: *ret }, dc + da)
                                } else {
                                    (err_model(), dc + da + dn + dm)
                                }
                            },
                            _ => (
                                err_model(),
                                (dc + da).push(labelled_diag(
                                    "calling an un-callable value"@,
                                    "this has type "@ + ty_text(c.ty) + " which is not callable"@,
                                    callee.span,
                                )),
                            ),
                        }
                    }
                }
            },
            ExprKind::Error => (err_model(), Seq::empty()),
        }
    }
}

impl Resolver {
    /// What resolution reads: everything but the diagnostics and the
    /// numbering.
    spec fn tables(&self) -> Tables {
        Tables {
            scopes: scopes_model(self.scopes@),
            module_names: keyed(self.module_names@),
            functions: tables_view(self.functions@),
            module_imports: imports_view(self.module_imports@),
            current_module: self.current_module,
        }
    }

    /// The diagnostics added since `old`, as models.
    spec fn added(&self, old: &Self) -> Seq<DiagModel> {
        diags_view(self.ctx.diags@.subrange(old.ctx.diags@.len() as int, self.ctx.diags@.len() as int))
    }
}

/// Diagnostics added in two steps are those of the first and then those of
/// the second.
proof fn lemma_added_trans(a: Resolver, b: Resolver, c: Resolver)
    requires
        b.same_tables(&a),
        c.same_tables(&b),
    ensures
        c.added(&a) == b.added(&a) + c.added(&b),
        c.tables() == a.tables(),
{
    let da = a.ctx.diags@;
    let db = b.ctx.diags@;
    let dc = c.ctx.diags@;
    assert(dc.subrange(da.len() as int, dc.len() as int) =~= db.subrange(da.len() as int, db.len() as int) + dc.subrange(db.len() as int, dc.len() as int));
    assert(c.added(&a) =~= b.added(&a) + c.added(&b));
}

/// Nothing is added since the same state.
proof fn lemma_added_none(a: Resolver)
    ensures
        a.added(&a) == Seq::<DiagModel>::empty(),
{
    assert(a.added(&a) =~= Seq::<DiagModel>::empty());
}

impl Resolver {
    /// A name: the innermost variable of that name in scope, else the
    /// function of that name in the current module.
    fn resolve_name(&mut self, name: String, span: Span) -> (r: RExpr)
        ensures
            final(self).same_tables(old(self)),
            !(r.kind is Error) ==> well_typed(r),
            final(self).quiet_since(old(self)) ==> !(r.kind is Error),
            (rexpr_model(r), final(self).added(old(self))) == old(self).tables().res_name(name@, span),
    {
        proof { lemma_added_none(*self); }
        let ghost t = self.tables();
        if let Some(info) = self.find_var(name.as_str()) {
            proof {
                lemma_grew_refl(self.ctx.diags@);
                assert(lval_typed(RLValue::Var(info.id), ty_model(info.ty)));
            }
            let r = RExpr { kind: RExprKind::LValue(RLValue::Var(info.id)), ty: info.ty };
            proof {
                let v = var_lookup(t.scopes, name@).unwrap();
                assert(rlval_model(RLValue::Var(info.id)) == RLValueM::Var(v.0));
                assert(rexpr_model(r) == RExprM { kind: RExprKindM::LValue(RLValueM::Var(v.0)), ty: v.1 });
                assert(t.res_name(name@, span).1 == Seq::<DiagModel>::empty());
            }
            return r;
        }
        if let Some(func_info) = self.find_func_in(self.current_module, name.as_str()) {
            proof { lemma_grew_refl(self.ctx.diags@); }
            return RExpr { kind: RExprKind::Function(func_info.id), ty: func_info.ty };
        }
        let msg = text_of(&["unknown name ", name.as_str()]);
        proof {
            reveal_with_fuel(joined, 3);
            assert(msg@ =~= "unknown name "@ + name@);
        }
        self.error(msg, span);
        err_rexpr()
    }

    /// A path `module::item`: a function of a module that is this one or
    /// that this one imports.
    fn resolve_path(&mut self, path: Vec<Spanned<String>>) -> (r: RExpr)
        ensures
            final(self).same_tables(old(self)),
            !(r.kind is Error) ==> well_typed(r),
            final(self).quiet_since(old(self)) ==> !(r.kind is Error),
            (rexpr_model(r), final(self).added(old(self))) == old(self).tables().res_path(path@),
    {
        proof { lemma_added_none(*self); reveal_with_fuel(joined, 6); }
        if path.len() != 2 {
            let span = if path.len() > 0 { path[0].span } else { Span::new(0, 0) };
            self.error("expected a path of the form `module::item`".to_owned(), span);
            return err_rexpr();
        }
        let module_seg = &path[0];
        let item_seg = &path[1];
        let target_module = match self.find_module(module_seg.inner.as_str()) {
            Some(m) => m,
            None => {
                let msg = text_of(&["unknown module `", module_seg.inner.as_str(), "`"]);
                assert(msg@ =~= "unknown module `"@ + module_seg.inner@ + "`"@);
                self.error(msg, module_seg.span);
                return err_rexpr();
            }
        };
        let imported = target_module == self.current_module || self.imports(self.current_module, target_module);
        if !imported {
            let msg = text_of(&["module `", module_seg.inner.as_str(), "` was not imported"]);
            assert(msg@ =~= "module `"@ + module_seg.inner@ + "` was not imported"@);
            self.error_labelled(msg, "add `import` for this module before using it".to_owned(), module_seg.span);
            return err_rexpr();
        }
        match self.find_func_in(target_module, item_seg.inner.as_str()) {
            Some(func_info) => {
                proof { lemma_grew_refl(self.ctx.diags@); }
                RExpr { kind: RExprKind::Function(func_info.id), ty: func_info.ty }
            }
            None => {
                let msg = text_of(&["no function `", item_seg.inner.as_str(), "` in module `", module_seg.inner.as_str(), "`"]);
                assert(msg@ =~= "no function `"@ + item_seg.inner@ + "` in module `"@ + module_seg.inner@ + "`"@);
                self.error(msg, item_seg.span);
                err_rexpr()
            }
        }
    }

    /// A place and the type of the values it holds.
    fn resolve_lval(&mut self, lval: LValue, span: Span) -> (r: (RLValue, Ty))
        ensures
            final(self).same_tables(old(self)),
            !(r.0 is Error) ==> lval_typed(r.0, ty_model(r.1)),
            ast_lval_ok(lval) && final(self).quiet_since(old(self)) ==> !(r.0 is Error),
            (rlval_model(r.0), ty_model(r.1), final(self).added(old(self))) == old(self).tables().res_lval(lval, span),
        decreases lval, 1nat,
    {
        proof { lemma_added_none(*self); reveal_with_fuel(joined, 4); }
        let ghost t0 = self.tables();
        match lval {
            LValue::Var(name) => {
                if let Some(info) = self.find_var(name.as_str()) {
                    proof { lemma_grew_refl(self.ctx.diags@); }
                    (RLValue::Var(info.id), info.ty)
                } else {
                    let msg = text_of(&["unknown variable ", name.as_str()]);
                    assert(msg@ =~= "unknown variable "@ + name@);
                    self.error(msg, span);
                    (RLValue::Error, Ty::Unit)
                }
            }
            LValue::Deref(inner_expr) => {
                let resolved = self.resolve_expr(inner_expr);
                if matches!(resolved.kind, RExprKind::Error) {
                    return (RLValue::Error, Ty::Unit);
                }
                let inner_ty = match &resolved.ty {
                    Ty::Ptr(inner) => Some(copy_ty(inner)),
                    _ => None,
                };
                match inner_ty {
                    Some(t) => (RLValue::Deref(Box::new(resolved)), t),
                    None => {
                        let shown = resolved.ty.to_text();
                        let label = text_of(&["dereferenced a value with type ", shown.as_str(), " here, which is not a pointer"]);
                        assert(label@ =~= "dereferenced a value with type "@ + ty_text(ty_model(resolved.ty)) + " here, which is not a pointer"@);
                        let ghost mid = *self;
                        self.error_labelled("dereference of a non-pointer".to_owned(), label, span);
                        proof {
                            lemma_grew_trans(old(self).ctx.diags@, mid.ctx.diags@, self.ctx.diags@);
                            lemma_added_trans(*old(self), mid, *self);
                        }
                        (RLValue::Error, Ty::Unit)
                    }
                }
            }
            LValue::Error => {
                proof { lemma_grew_refl(self.ctx.diags@); }
                (RLValue::Error, Ty::Unit)
            }
        }
    }
}


/// Keeping the tables is transitive.
proof fn lemma_tables_trans(a: Resolver, b: Resolver, c: Resolver)
    requires
        b.same_tables(&a),
        c.same_tables(&b),
    ensures
        c.same_tables(&a),
{
    lemma_grew_trans(a.ctx.diags@, b.ctx.diags@, c.ctx.diags@);
}

impl Resolver {
    /// An expression, resolved and type checked; an error expression, with
    /// a diagnostic, where it does not check.
    #[verifier::rlimit(100)]
    #[verifier::spinoff_prover]
    fn resolve_expr(&mut self, expr: Expr) -> (r: RExpr)
        ensures
            final(self).same_tables(old(self)),
            !(r.kind is Error) ==> well_typed(r),
            ast_expr_ok(expr) && final(self).quiet_since(old(self)) ==> !(r.kind is Error),
            (rexpr_model(r), final(self).added(old(self))) == old(self).tables().res_expr(expr),
        decreases expr, 1nat,
    {
        let ghost e0 = expr;
        let ghost s0 = *self;
        proof { lemma_grew_refl(self.ctx.diags@); lemma_added_none(*self); }
        let span = expr.span;
        match expr.inner {
            ExprKind::IntLit(i) => RExpr { kind: RExprKind::IntLit(i), ty: Ty::Int },
            ExprKind::CharLit(c) => RExpr { kind: RExprKind::CharLit(c), ty: Ty::Int },
            ExprKind::StrLit(v) => RExpr { kind: RExprKind::StrLit(v), ty: Ty::Ptr(Box::new(Ty::Int)) },
            ExprKind::LValue(lval) => match *lval {
                LValue::Var(name) => self.resolve_name(name, span),
                other => {
                    let (rlval, ty) = self.resolve_lval(other, span);
                    if matches!(rlval, RLValue::Error) {
                        return err_rexpr();
                    }
                    RExpr { kind: RExprKind::LValue(rlval), ty }
                }
            },
            ExprKind::Ref(inner_lval) => {
                let (resolved, ty) = self.resolve_lval(*inner_lval.inner, inner_lval.span);
                if matches!(resolved, RLValue::Error) {
                    return err_rexpr();
                }
                RExpr { kind: RExprKind::Ref(resolved), ty: Ty::Ptr(Box::new(ty)) }
            }
            ExprKind::Path(path) => self.resolve_path(path),
            ExprKind::Binary { left, op, right } => {
                let rleft = self.resolve_expr(*left);
                let ghost s1 = *self;
                let rright = self.resolve_expr(*right);
                proof { lemma_tables_trans(s0, s1, *self); lemma_added_trans(s0, s1, *self); }
                if matches!(rleft.kind, RExprKind::Error) || matches!(rright.kind, RExprKind::Error) {
                    return err_rexpr();
                }
                match op.res_ty(&rleft.ty, &rright.ty) {
                    Some(ty) => RExpr { kind: RExprKind::Binary { left: Box::new(rleft), op, right: Box::new(rright) }, ty },
                    None => {
                        let lt = rleft.ty.to_text();
                        let rt = rright.ty.to_text();
                        let label = text_of(&[op.to_text(), " cannot be used with ", lt.as_str(), " and ", rt.as_str()]);
                        assert(label@ =~= binary_op_text(op) + " cannot be used with "@ + ty_text(ty_model(rleft.ty)) + " and "@ + ty_text(ty_model(rright.ty))) by { reveal_with_fuel(joined, 6); }
                        let ghost s2 = *self;
                        self.error_labelled("incompatible types in binary expression".to_owned(), label, span);
                        proof { lemma_tables_trans(s0, s2, *self); lemma_added_trans(s0, s2, *self); }
                        err_rexpr()
                    }
                }
            }
            ExprKind::Unary { op, expr: expr_inner } => {
                let rexpr = self.resolve_expr(*expr_inner);
                if matches!(rexpr.kind, RExprKind::Error) {
                    return rexpr;
                }
                match op.res_ty(&rexpr.ty) {
                    Some(ty) => RExpr { kind: RExprKind::Unary { op, expr: Box::new(rexpr) }, ty },
                    None => {
                        let t = rexpr.ty.to_text();
                        let label = text_of(&[op.to_text(), " cannot be used with ", t.as_str()]);
                        assert(label@ =~= unary_op_text(op) + " cannot be used with "@ + ty_text(ty_model(rexpr.ty))) by { reveal_with_fuel(joined, 6); }
                        let ghost s2 = *self;
                        self.error_labelled("incompatible type in unary expression".to_owned(), label, span);
                        proof { lemma_tables_trans(s0, s2, *self); lemma_added_trans(s0, s2, *self); }
                        err_rexpr()
                    }
                }
            }
            ExprKind::Assign { lval, expr: val_expr } => {
                let (rlval, rlval_ty) = self.resolve_lval(*lval.inner, lval.span);
                let ghost s1 = *self;
                let val_rexpr = self.resolve_expr(*val_expr);
                proof { lemma_tables_trans(s0, s1, *self); lemma_added_trans(s0, s1, *self); }
                if matches!(rlval, RLValue::Error) {
                    return err_rexpr();
                }
                if matches!(val_rexpr.kind, RExprKind::Error) {
                    return val_rexpr;
                }
                if same_ty(&val_rexpr.ty, &rlval_ty) {
                    RExpr { kind: RExprKind::Assign { target: rlval, val: Box::new(val_rexpr) }, ty: rlval_ty }
                } else {
                    let vt = val_rexpr.ty.to_text();
                    let pt = rlval_ty.to_text();
                    let label = text_of(&["cannot assign value of type ", vt.as_str(), " to place of type ", pt.as_str()]);
                    assert(label@ =~= "cannot assign value of type "@ + ty_text(ty_model(val_rexpr.ty)) + " to place of type "@ + ty_text(ty_model(rlval_ty))) by { reveal_with_fuel(joined, 6); }
                    let ghost s2 = *self;
                    self.error_labelled("type mismatch".to_owned(), label, span);
                    proof { lemma_tables_trans(s0, s2, *self); lemma_added_trans(s0, s2, *self); }
                    err_rexpr()
                }
            }
            ExprKind::Call { callee, params } => self.resolve_call(callee, params, span, Ghost(e0)),
            ExprKind::Error => err_rexpr(),
        }
    }

    /// A call: the callee, then the arguments; the argument count and types
    /// checked against the callee's function type.
    #[verifier::rlimit(100)]
    #[verifier::spinoff_prover]
    fn resolve_call(&mut self, callee: Box<Expr>, params: Vec<Expr>, span: Span, Ghost(e0): Ghost<Expr>) -> (r: RExpr)
        requires
            e0.inner == (ExprKind::Call { callee, params }),
            e0.span == span,
        ensures
            final(self).same_tables(old(self)),
            !(r.kind is Error) ==> well_typed(r),
            ast_expr_ok(*callee) && ast_exprs_ok(params@) && final(self).quiet_since(old(self)) ==> !(r.kind is Error),
            (rexpr_model(r), final(self).added(old(self))) == old(self).tables().res_expr(e0),
        decreases e0, 0nat,
    {
        let ghost s0 = *self;
        let ghost t0 = self.tables();
        let callee_span = callee.span;
        proof {
            assert(decreases_to!(e0 => *callee)) by {
                assert(decreases_to!(e0 => e0.inner));
                assert(decreases_to!(e0.inner => e0.inner->callee));
            }
        }
        let rcallee = self.resolve_expr(*callee);
        if matches!(rcallee.kind, RExprKind::Error) {
            return rcallee;
        }
        let ghost s1 = *self;
        let ghost pv = params@;
        let mut rest = params;
        let mut args: Vec<RExpr> = Vec::new();
        let mut any_error = false;
        let ghost mut i: int = 0;
        proof {
            assert(pv.subrange(0, pv.len() as int) =~= pv);
            lemma_grew_refl(self.ctx.diags@);
            lemma_added_none(*self);
            assert(args@.map_values(|a: RExpr| rexpr_model(a)) =~= Seq::<RExprM>::empty());
        }
        while rest.len() > 0
            invariant
                self.same_tables(&s1),
                s1.same_tables(&s0),
                t0 == s0.tables(),
                e0.inner == (ExprKind::Call { callee: e0.inner->callee, params: e0.inner->params }),
                e0.inner->params@ == pv,
                0 <= i <= pv.len(),
                rest@ == pv.subrange(i, pv.len() as int),
                args@.len() == i,
                any_error == exists|k: int| 0 <= k < i && (#[trigger] args@[k]).kind is Error,
                forall|k: int| 0 <= k < i && !((#[trigger] args@[k]).kind is Error) ==> well_typed(args@[k]),
                ast_exprs_ok(pv) && self.quiet_since(&s1) ==> ast_exprs_ok(rest@) && !any_error,
                t0.res_args(pv).0 == args@.map_values(|a: RExpr| rexpr_model(a)) + t0.res_args(rest@).0,
                t0.res_args(pv).1 == self.added(&s1) + t0.res_args(rest@).1,
            decreases rest@.len(),
        {
            let ghost r0 = rest@;
            let p = rest.remove(0);
            proof {
                assert(rest@ =~= r0.subrange(1, r0.len() as int));
                assert(rest@ =~= pv.subrange(i + 1, pv.len() as int));
                assert(p == pv[i]);
                assert(decreases_to!(e0 => p)) by {
                    assert(decreases_to!(e0 => e0.inner));
                    assert(decreases_to!(e0.inner => e0.inner->params));
                    assert(decreases_to!(e0.inner->params => e0.inner->params@));
                    assert(decreases_to!(e0.inner->params@ => e0.inner->params@[i]));
                }
            }
            let ghost sb = *self;
            let ghost margs = args@.map_values(|a: RExpr| rexpr_model(a));
            let a = self.resolve_expr(p);
            proof {
                lemma_tables_trans(s1, sb, *self);
                lemma_added_trans(s1, sb, *self);
                lemma_tables_trans(s0, s1, sb);
                let (am, ad) = t0.res_expr(p);
                assert(r0[0] == p);
                assert(t0.res_args(r0) == (seq![am] + t0.res_args(rest@).0, ad + t0.res_args(rest@).1));
            }
            let ghost was_error = any_error;
            let ghost oargs = args@;
            if matches!(a.kind, RExprKind::Error) {
                any_error = true;
            }
            args.push(a);
            proof {
                assert(args@ == oargs.push(a));
                assert(forall|k: int| 0 <= k < i ==> args@[k] == oargs[k]);
                if was_error {
                    let k = choose|k: int| 0 <= k < i && (#[trigger] oargs[k]).kind is Error;
                    assert(args@[k].kind is Error);
                }
                if a.kind is Error {
                    assert(args@[i].kind is Error);
                }
                if !any_error {
                    assert forall|k: int| 0 <= k < i + 1 implies !((#[trigger] args@[k]).kind is Error) by {
                        if k < i {
                            assert(args@[k] == oargs[k]);
                        }
                    }
                }
                assert forall|k: int| 0 <= k < i + 1 && !((#[trigger] args@[k]).kind is Error) implies well_typed(args@[k]) by {
                    if k < i {
                        assert(args@[k] == oargs[k]);
                    }
                }
                assert(args@.map_values(|a: RExpr| rexpr_model(a)) =~= margs.push(rexpr_model(a)));
                assert(margs.push(rexpr_model(a)) + t0.res_args(rest@).0 =~= margs + (seq![rexpr_model(a)] + t0.res_args(rest@).0));
                assert(self.added(&s1) =~= sb.added(&s1) + self.added(&sb));
                assert(self.added(&s1) + t0.res_args(rest@).1 =~= sb.added(&s1) + (self.added(&sb) + t0.res_args(rest@).1));
                i = i + 1;
            }
        }
        let ghost argsm = args@.map_values(|a: RExpr| rexpr_model(a));
        proof {
            lemma_tables_trans(s0, s1, *self);
            lemma_added_trans(s0, s1, *self);
            assert(rest@ =~= Seq::<Expr>::empty());
            assert(t0.res_args(rest@).0 =~= Seq::<RExprM>::empty());
            assert(t0.res_args(pv).0 =~= argsm);
            assert(t0.res_args(pv).1 =~= self.added(&s1));
            assert(argsm =~= rexprs_model(args));
            assert(any_error == exists|k: int| 0 <= k < argsm.len() && (#[trigger] argsm[k]).kind is Error) by {
                if any_error {
                    let k = choose|k: int| 0 <= k < i && (#[trigger] args@[k]).kind is Error;
                    assert(argsm[k].kind is Error);
                } else {
                    assert forall|k: int| 0 <= k < argsm.len() implies !((#[trigger] argsm[k]).kind is Error) by {
                        assert(!(args@[k].kind is Error));
                    }
                }
            }
        }
        if any_error {
            return err_rexpr();
        }
        let fn_ty = match &rcallee.ty {
            Ty::Func(param_tys, ret_ty) => Some((param_tys, ret_ty)),
            _ => None,
        };
        match fn_ty {
            Some((param_tys, ret_ty)) => {
                let ghost pm = tys_model(*param_tys);
                let ghost sc = *self;
                let mut valid = true;
                proof { lemma_added_none(*self); lemma_grew_refl(self.ctx.diags@); }
                if args.len() != param_tys.len() {
                    let expected = u64_decimal(param_tys.len() as u64);
                    let got = u64_decimal(args.len() as u64);
                    let e = string_of_chars(expected.as_slice());
                    let g = string_of_chars(got.as_slice());
                    let label = text_of(&["expected ", e.as_str(), " arguments, got ", g.as_str()]);
                    assert(label@ =~= "expected "@ + decimal(pm.len()) + " arguments, got "@ + decimal(argsm.len())) by {
                        reveal_with_fuel(joined, 5);
                    }
                    let ghost s2 = *self;
                    self.error_labelled("incorrect number of arguments".to_owned(), label, span);
                    proof { lemma_tables_trans(s0, s2, *self); lemma_added_trans(sc, s2, *self); }
                    valid = false;
                }
                let ghost dn = self.added(&sc);
                let ghost s3 = *self;
                proof { lemma_grew_refl(self.ctx.diags@); lemma_added_none(*self); }
                let ghost n: nat = if argsm.len() < pm.len() { argsm.len() } else { pm.len() };
                let mut k: usize = 0;
                while k < args.len() && k < param_tys.len()
                    invariant
                        self.same_tables(&s3),
                        s3.same_tables(&s0),
                        k <= args@.len(),
                        k <= n,
                        n == (if argsm.len() < pm.len() { argsm.len() } else { pm.len() }),
                        pm == tys_model(*param_tys),
                        argsm == args@.map_values(|a: RExpr| rexpr_model(a)),
                        valid == (args@.len() == param_tys@.len() && self.added(&s3).len() == 0),
                        valid ==> forall|j: int| 0 <= j < k ==> ty_model((#[trigger] args@[j]).ty) == pm[j],
                        self.added(&s3) == mismatches(argsm, pm, span, k as nat),
                        !valid ==> !self.quiet_since(&s0),
                        dn.len() == 0 <==> args@.len() == param_tys@.len(),
                        s3.added(&s0) == s1.added(&s0) + sc.added(&s1) + dn,
                    decreases args@.len() - k,
                {
                    let ghost sk = *self;
                    if !same_ty(&args[k].ty, &param_tys[k]) {
                        let num = u64_decimal((k as u64) + 1);
                        let nt = string_of_chars(num.as_slice());
                        let at = args[k].ty.to_text();
                        let et = param_tys[k].to_text();
                        let label = text_of(&["argument ", nt.as_str(), " has type ", at.as_str(), ", expected ", et.as_str()]);
                        assert(label@ =~= "argument "@ + decimal((k + 1) as nat) + " has type "@ + ty_text(argsm[k as int].ty) + ", expected "@ + ty_text(pm[k as int])) by {
                            reveal_with_fuel(joined, 7);
                        }
                        let ghost s4 = *self;
                        self.error_labelled("type mismatch".to_owned(), label, span);
                        proof { lemma_tables_trans(s3, s4, *self); lemma_added_trans(s3, s4, *self); }
                        valid = false;
                    } else {
                        proof { assert(argsm[k as int].ty == pm[k as int]); }
                    }
                    proof {
                        assert(mismatches(argsm, pm, span, (k + 1) as nat).len() >= mismatches(argsm, pm, span, k as nat).len());
                    }
                    k += 1;
                }
                proof {
                    lemma_tables_trans(s0, s3, *self);
                    lemma_added_trans(s0, s3, *self);
                    assert(k == n);
                }
                if !valid {
                    return err_rexpr();
                }
                let ret = copy_ty(ret_ty);
                proof {
                    lemma_args_typed(args@, pm);
                }
                let r = RExpr { kind: RExprKind::Call { callee: Box::new(rcallee), args }, ty: ret };
                r
            }
            None => {
                let t = rcallee.ty.to_text();
                let label = text_of(&["this has type ", t.as_str(), " which is not callable"]);
                assert(label@ =~= "this has type "@ + ty_text(ty_model(rcallee.ty)) + " which is not callable"@) by {
                    reveal_with_fuel(joined, 4);
                }
                let ghost s2 = *self;
                self.error_labelled("calling an un-callable value".to_owned(), label, callee_span);
                proof { lemma_tables_trans(s0, s2, *self); lemma_added_trans(s0, s2, *self); }
                err_rexpr()
            }
        }
    }
}


/// The mathematical form of a resolved item of inline assembly.
pub enum RAsmItemM {
    In(RRegister, RExprM),
    Out(RRegister, RLValueM),
    Instr(Seq<char>, Seq<RAsmOperand>),
    Error,
}

/// The mathematical form of a resolved statement.
pub enum RStmtM {
    Let(VarId, Option<RExprM>),
    Block(Seq<RStmtM>),
    If(RExprM, Box<RStmtM>, Option<Box<RStmtM>>),
    While(RExprM, Box<RStmtM>),
    Expr(RExprM),
    Asm(Seq<RAsmItemM>),
    Return(Option<RExprM>),
    Error,
}

/// The mathematical form of a resolved item of inline assembly.
pub open spec fn rasm_model(i: RAsmItem) -> RAsmItemM {
    match i {
        RAsmItem::In { reg, expr } => RAsmItemM::In(reg, rexpr_model(expr)),
        RAsmItem::Out { reg, lval } => RAsmItemM::Out(reg, rlval_model(lval)),
        RAsmItem::Instr { mnemonic, args } => RAsmItemM::Instr(mnemonic@, args@),
        RAsmItem::Error => RAsmItemM::Error,
    }
}

/// The mathematical form of an optional resolved expression.
pub open spec fn opt_rexpr_model(e: Option<RExpr>) -> Option<RExprM> {
    match e {
        Some(x) => Some(rexpr_model(x)),
        None => None,
    }
}

/// The mathematical form of a resolved statement: the same tree, with
/// sequences for lists.
pub open spec fn rstmt_model(s: RStmt) -> RStmtM
    decreases s, 1nat,
{
    match s {
        RStmt::Let { var, val } => RStmtM::Let(var, opt_rexpr_model(val)),
        RStmt::Block(v) => RStmtM::Block(rstmts_model(v)),
        RStmt::If { cond, then_branch, else_branch } => RStmtM::If(
            rexpr_model(cond),
            Box::new(rstmt_model(*then_branch)),
            match else_branch {
                Some(b) => Some(Box::new(rstmt_model(*b))),
                None => None,
            },
        ),
        RStmt::While { cond, body } => RStmtM::While(rexpr_model(cond), Box::new(rstmt_model(*body))),
        RStmt::Expr(e) => RStmtM::Expr(rexpr_model(e)),
        RStmt::Asm(items) => RStmtM::Asm(items@.map_values(|i: RAsmItem| rasm_model(i))),
        RStmt::Return(v) => RStmtM::Return(opt_rexpr_model(v)),
        RStmt::Error => RStmtM::Error,
    }
}

/// The mathematical forms of resolved statements.
pub open spec fn rstmts_model(v: Vec<RStmt>) -> Seq<RStmtM>
    decreases v, 0nat,
{
    Seq::new(v@.len(), |i: int| if 0 <= i < v@.len() { rstmt_model(v@[i]) } else { RStmtM::Error })
}

/// The operand of resolved inline assembly for an operand of the syntax tree.
pub open spec fn operand_of(a: AsmOperand) -> RAsmOperand {
    match a {
        AsmOperand::Reg(r) => RAsmOperand::Reg(rreg_of(r)),
        AsmOperand::Imm(n) => RAsmOperand::Imm(n),
        AsmOperand::Error => RAsmOperand::Error,
    }
}

/// What resolving statements reads and changes: the tables with the scopes,
/// the next variable number and the types of the locals so far.
struct StmtState {
    tables: Tables,
    next_var: nat,
    locals: Seq<TyModel>,
}

impl Tables {
    /// An item of inline assembly, resolved, and the diagnostics it gives.
    spec fn res_asm_item(self, item: Spanned<AsmItem>) -> (RAsmItemM, Seq<DiagModel>) {
        match item.inner {
            AsmItem::In { reg, expr } => {
                let (r, d) = self.res_expr(expr);
                (RAsmItemM::In(rreg_of(reg.inner), r), d)
            },
            AsmItem::Out { reg, lval } => {
                let (l, _t, d) = self.res_lval(lval, item.span);
                (RAsmItemM::Out(rreg_of(reg.inner), l), d)
            },
            AsmItem::Instr { mnemonic, args } => (
                RAsmItemM::Instr(mnemonic.inner@, args@.map_values(|a: Spanned<AsmOperand>| operand_of(a.inner))),
                Seq::empty(),
            ),
            AsmItem::Error => (RAsmItemM::Error, Seq::empty()),
        }
    }

    /// Items of inline assembly, resolved in order.
    spec fn res_asm_items(self, items: Seq<Spanned<AsmItem>>) -> (Seq<RAsmItemM>, Seq<DiagModel>)
        decreases items.len(),
    {
        if items.len() == 0 {
            (Seq::empty(), Seq::empty())
        } else {
            let (a, d) = self.res_asm_item(items[0]);
            let (rest, dr) = self.res_asm_items(items.subrange(1, items.len() as int));
            (seq![a] + rest, d + dr)
        }
    }
}

impl StmtState {
    /// The state with `name` bound to `id` of type `t` in the innermost scope,
    /// replacing the first binding of that name there.
    spec fn declared(self, name: Seq<char>, id: VarId, t: TyModel) -> StmtState {
        let sc = self.tables.scopes;
        StmtState {
            tables: Tables { scopes: sc.drop_last().push(upsert(sc.last(), name, (id, t))), ..self.tables },
            ..self
        }
    }

    /// The state with the scopes replaced.
    spec fn with_scopes(self, scopes: Seq<Seq<(Seq<char>, (VarId, TyModel))>>) -> StmtState {
        StmtState { tables: Tables { scopes, ..self.tables }, ..self }
    }

    /// A `let` statement: the statement, the state after it and the
    /// diagnostics it gives.
    spec fn res_let(self, name: Spanned<String>, ty: Option<Ty>, val: Option<Expr>) -> (RStmtM, StmtState, Seq<DiagModel>) {
        let (rv, dv) = match val {
            Some(v) => (Some(self.tables.res_expr(v).0), self.tables.res_expr(v).1),
            None => (None, Seq::empty()),
        };
        let (ft, dt) = match ty {
            Some(t) => (
                ty_model(t),
                match rv {
                    Some(v) => if !(v.kind is Error) && v.ty != ty_model(t) {
                        seq![labelled_diag(
                            "type mismatch in let binding"@,
                            "expected "@ + ty_text(ty_model(t)) + ", found "@ + ty_text(v.ty),
                            name.span,
                        )]
                    } else {
                        Seq::empty()
                    },
                    None => Seq::empty(),
                },
            ),
            None => match rv {
                Some(v) => (v.ty, Seq::empty()),
                None => (
                    TyModel::Unit,
                    seq![labelled_diag(
                        "cannot infer the type of this variable"@,
                        "add a type annotation (`: TYPE`) or an initializer"@,
                        name.span,
                    )],
                ),
            },
        };
        let id = VarId(self.next_var as u32);
        let st1 = StmtState { next_var: self.next_var + 1, locals: self.locals.push(ft), ..self };
        (RStmtM::Let(id, rv), st1.declared(name.inner@, id, ft), dv + dt)
    }

    /// A statement: the resolved statement, the state after it and the
    /// diagnostics it gives.
    spec fn res_stmt(self, s: Stmt) -> (RStmtM, StmtState, Seq<DiagModel>)
        decreases s,
    {
        match s.inner {
            StmtKind::Let { name, ty, val } => self.res_let(name, ty, val),
            StmtKind::Block(stmts) => {
                let inner = self.with_scopes(self.tables.scopes.push(Seq::empty()));
                let (rs, st, d) = inner.res_stmts(stmts@);
                (RStmtM::Block(rs), st.with_scopes(st.tables.scopes.drop_last()), d)
            },
            StmtKind::If { cond, then_branch, else_branch } => {
                let (c, dc) = self.tables.res_expr(cond);
                let (t, st1, dt) = self.res_stmt(*then_branch);
                match else_branch {
                    Some(b) => {
                        let (e, st2, de) = st1.res_stmt(*b);
                        (RStmtM::If(c, Box::new(t), Some(Box::new(e))), st2, dc + dt + de)
                    },
                    None => (RStmtM::If(c, Box::new(t), None), st1, dc + dt),
                }
            },
            StmtKind::While { cond, body } => {
                let (c, dc) = self.tables.res_expr(cond);
                let (b, st1, db) = self.res_stmt(*body);
                (RStmtM::While(c, Box::new(b)), st1, dc + db)
            },
            StmtKind::Expr(e) => (RStmtM::Expr(self.tables.res_expr(e).0), self, self.tables.res_expr(e).1),
            StmtKind::Asm(items) => {
                let (ri, d) = self.tables.res_asm_items(items@);
                (RStmtM::Asm(ri), self, d)
            },
            StmtKind::Return(v) => match v {
                Some(e) => (RStmtM::Return(Some(self.tables.res_expr(e).0)), self, self.tables.res_expr(e).1),
                None => (RStmtM::Return(None), self, Seq::empty()),
            },
            StmtKind::Error => (RStmtM::Error, self, Seq::empty()),
        }
    }

    /// Statements in order, each in the state the one before leaves.
    spec fn res_stmts(self, ss: Seq<Stmt>) -> (Seq<RStmtM>, StmtState, Seq<DiagModel>)
        decreases ss,
    {
        if ss.len() == 0 {
            (Seq::empty(), self, Seq::empty())
        } else {
            let (r, st1, d) = self.res_stmt(ss[0]);
            let (rest, st2, dr) = st1.res_stmts(ss.subrange(1, ss.len() as int));
            (seq![r] + rest, st2, d + dr)
        }
    }
}

impl StmtState {
    /// Parameters declared in order, each a new variable in the innermost
    /// scope: their numbers and the state after them.
    spec fn declare_params(self, ps: Seq<(Spanned<String>, Ty)>) -> (Seq<VarId>, StmtState)
        decreases ps.len(),
    {
        if ps.len() == 0 {
            (Seq::empty(), self)
        } else {
            let id = VarId(self.next_var as u32);
            let t = ty_model(ps[0].1);
            let st1 = StmtState { next_var: self.next_var + 1, locals: self.locals.push(t), ..self }
                .declared(ps[0].0.inner@, id, t);
            let (ids, st2) = st1.declare_params(ps.subrange(1, ps.len() as int));
            (seq![id] + ids, st2)
        }
    }

    /// A function from this state: its parameters' numbers, its locals' types,
    /// its body, the next variable number after it and the diagnostics.
    spec fn res_function(self, ps: Seq<(Spanned<String>, Ty)>, body: Stmt)
        -> (Seq<VarId>, Seq<TyModel>, RStmtM, nat, Seq<DiagModel>)
    {
        let (ids, st1) = self.declare_params(ps);
        let (b, st2, d) = st1.res_stmt(body);
        (ids, st2.locals, b, st2.next_var, d)
    }
}

/// What resolving a function gives besides its signature: its parameters'
/// numbers, its locals' types and its body.
pub open spec fn fn_body(f: RFunction) -> (Seq<VarId>, Seq<TyModel>, RStmtM) {
    (f.params@.map_values(|p: (VarId, Ty)| p.0), f.locals@.map_values(|t: Ty| ty_model(t)), rstmt_model(f.body))
}

impl Tables {
    /// The state a function of these tables starts in: one empty scope, no
    /// locals, variables numbered from `nv`.
    spec fn entry(self, nv: nat) -> StmtState {
        StmtState { tables: Tables { scopes: seq![Seq::empty()], ..self }, next_var: nv, locals: Seq::empty() }
    }

    /// The defined functions of `module` among `items` that the tables know,
    /// resolved in order with variables numbered from `nv`: what each gives
    /// besides its signature, the next variable number, and the diagnostics.
    spec fn res_items(self, module: ModuleId, nv: nat, items: Seq<Spanned<ItemKind>>)
        -> (Seq<(Seq<VarId>, Seq<TyModel>, RStmtM)>, nat, Seq<DiagModel>)
        decreases items.len(),
    {
        if items.len() == 0 {
            (Seq::empty(), nv, Seq::empty())
        } else {
            let (fs, nv1, d1) = match items[0].inner {
                ItemKind::FunctionDefined { name, params, body, .. } => if self.func_lookup(module, name.inner@) is Some {
                    let (ids, locals, b, nv2, d) = self.entry(nv).res_function(params@, body);
                    (seq![(ids, locals, b)], nv2, d)
                } else {
                    (Seq::empty(), nv, Seq::empty())
                },
                _ => (Seq::empty(), nv, Seq::empty()),
            };
            let (rest, nv3, d3) = self.res_items(module, nv1, items.subrange(1, items.len() as int));
            (fs + rest, nv3, d1 + d3)
        }
    }
}

/// What resolving the defined functions of `items` as module `module_id`
/// gives besides their signatures, in order, with variables numbered from
/// `nv`, over these module names, function tables and imports; the next
/// variable number after them; and the diagnostics.
pub closed spec fn tables_bodies(
    names: Seq<(Seq<char>, ModuleId)>,
    functions: Seq<(ModuleId, Seq<(Seq<char>, (FuncId, TyModel))>)>,
    imports: Seq<(ModuleId, Seq<ModuleId>)>,
    module_id: ModuleId,
    items: Seq<Spanned<ItemKind>>,
    nv: nat,
) -> (Seq<(Seq<VarId>, Seq<TyModel>, RStmtM)>, nat, Seq<DiagModel>) {
    Tables { scopes: Seq::empty(), module_names: names, functions, module_imports: imports, current_module: module_id }
        .res_items(module_id, nv, items)
}

impl Resolver {
    /// What statement resolution reads and changes.
    /// The state a function starts in.
    spec fn function_entry(&self) -> StmtState {
        self.tables().entry(self.ids.next_var as nat)
    }

    /// What resolving the defined functions of a module with `items` as
    /// module `module_id` gives besides their signatures, in order; the next
    /// variable number after them; and the diagnostics.
    pub open spec fn module_bodies(&self, module_id: ModuleId, items: Seq<Spanned<ItemKind>>)
        -> (Seq<(Seq<VarId>, Seq<TyModel>, RStmtM)>, nat, Seq<DiagModel>)
    {
        tables_bodies(self.module_table(), self.function_tables(), self.import_table(), module_id, items, self.next_var())
    }

    spec fn stmt_state(&self) -> StmtState {
        StmtState {
            tables: self.tables(),
            next_var: self.ids.next_var as nat,
            locals: self.current_locals@.map_values(|t: Ty| ty_model(t)),
        }
    }
}

/// Diagnostics added in two steps are those of the first and then those of
/// the second, whatever else changed.
proof fn lemma_added_grew(a: Resolver, b: Resolver, c: Resolver)
    requires
        grew(b.ctx.diags@, a.ctx.diags@),
        grew(c.ctx.diags@, b.ctx.diags@),
    ensures
        c.added(&a) == b.added(&a) + c.added(&b),
        grew(c.ctx.diags@, a.ctx.diags@),
{
    lemma_grew_trans(a.ctx.diags@, b.ctx.diags@, c.ctx.diags@);
    let da = a.ctx.diags@;
    let db = b.ctx.diags@;
    let dc = c.ctx.diags@;
    assert(dc.subrange(da.len() as int, dc.len() as int) =~= db.subrange(da.len() as int, db.len() as int) + dc.subrange(db.len() as int, dc.len() as int));
    assert(c.added(&a) =~= b.added(&a) + c.added(&b));
}

/// Statements each without an error node are so together.
proof fn lemma_stmts_ok(ss: Seq<RStmt>)
    requires
        forall|k: int| 0 <= k < ss.len() ==> stmt_ok(#[trigger] ss[k]),
    ensures
        stmts_ok(ss),
    decreases ss.len(),
{
    if ss.len() > 0 {
        let r = ss.subrange(1, ss.len() as int);
        assert forall|k: int| 0 <= k < r.len() implies stmt_ok(#[trigger] r[k]) by {
            assert(r[k] == ss[k + 1]);
        }
        lemma_stmts_ok(r);
    }
}

/// Whether a resolved item of inline assembly holds no error node.
pub open spec fn asm_item_ok(i: RAsmItem) -> bool {
    match i {
        RAsmItem::In { expr, .. } => expr_ok(expr),
        RAsmItem::Out { lval, .. } => lval_ok(lval),
        RAsmItem::Instr { args, .. } => forall|k: int| 0 <= k < args@.len() ==> !(args@[k] is Error),
        RAsmItem::Error => false,
    }
}

/// Whether an item of inline assembly of the syntax tree holds no error node.
pub open spec fn ast_asm_item_ok(i: AsmItem) -> bool {
    match i {
        AsmItem::In { expr, .. } => ast_expr_ok(expr),
        AsmItem::Out { lval, .. } => ast_lval_ok(lval),
        AsmItem::Instr { args, .. } => forall|k: int| 0 <= k < args@.len() ==> !(args@[k].inner is Error),
        AsmItem::Error => false,
    }
}

/// Items of inline assembly each without an error node are so together.
proof fn lemma_asm_ok(items: Seq<RAsmItem>)
    requires
        forall|k: int| 0 <= k < items.len() ==> asm_item_ok(#[trigger] items[k]),
    ensures
        asm_ok(items),
    decreases items.len(),
{
    if items.len() > 0 {
        let r = items.subrange(1, items.len() as int);
        assert forall|k: int| 0 <= k < r.len() implies asm_item_ok(#[trigger] r[k]) by {
            assert(r[k] == items[k + 1]);
        }
        lemma_asm_ok(r);
        assert(asm_item_ok(items[0]));
    }
}

impl Resolver {
    /// Whether, of the tables, only the variables and diagnostics of `self`
    /// differ from `old`, with as many scopes.
    spec fn same_modules(&self, old: &Self) -> bool {
        &&& self.ctx.source == old.ctx.source
        &&& grew(self.ctx.diags@, old.ctx.diags@)
        &&& self.ids.next_func == old.ids.next_func
        &&& self.modules == old.modules
        &&& self.module_names == old.module_names
        &&& self.functions == old.functions
        &&& self.module_imports == old.module_imports
        &&& self.current_module == old.current_module
        &&& self.scopes@.len() == old.scopes@.len()
    }

    /// A fresh variable of type `ty`, recorded among the current locals.
    fn new_var(&mut self, ty: Ty) -> (v: VarId)
        requires
            old(self).ids.next_var < u32::MAX,
        ensures
            v == VarId(old(self).ids.next_var),
            final(self).ids.next_var == old(self).ids.next_var + 1,
            final(self).same_modules(old(self)),
            final(self).scopes == old(self).scopes,
            final(self).ctx.diags@ == old(self).ctx.diags@,
            final(self).stmt_state() == (StmtState {
                next_var: old(self).stmt_state().next_var + 1,
                locals: old(self).stmt_state().locals.push(ty_model(ty)),
                ..old(self).stmt_state()
            }),
    {
        let id = self.ids.next_var;
        let ghost t = ty;
        self.ids.next_var = id + 1;
        self.current_locals.push(ty);
        proof {
            lemma_grew_refl(self.ctx.diags@);
            assert(self.current_locals@.map_values(|t: Ty| ty_model(t))
                =~= old(self).current_locals@.map_values(|t: Ty| ty_model(t)).push(ty_model(t)));
        }
        VarId(id)
    }

    /// Declares `name` in the innermost scope.
    fn declare(&mut self, name: String, info: VarInfo)
        requires
            old(self).scopes@.len() >= 1,
        ensures
            final(self).same_modules(old(self)),
            final(self).ids == old(self).ids,
            final(self).ctx.diags@ == old(self).ctx.diags@,
            final(self).current_locals == old(self).current_locals,
            final(self).stmt_state() == old(self).stmt_state().declared(name@, info.id, ty_model(info.ty)),
    {
        let ghost sm0 = scopes_model(self.scopes@);
        let ghost nm = name@;
        let ghost entry = (info.id, ty_model(info.ty));
        let mut last = self.scopes.pop().unwrap();
        proof {
            assert(scopes_model(self.scopes@) =~= sm0.drop_last());
            assert(scope_model(last) == sm0.last());
        }
        let ghost es = scope_model(last);
        let mut j: usize = 0;
        let mut found = false;
        while j < last.len()
            invariant_except_break
                !found,
            invariant
                es == scope_model(last),
                nm == name@,
                j <= last@.len(),
                forall|q: int| 0 <= q < j ==> es[q].0 != nm,
            ensures
                es == scope_model(last),
                j <= last@.len(),
                forall|q: int| 0 <= q < j ==> es[q].0 != nm,
                found ==> j < last@.len() && es[j as int].0 == nm,
                !found ==> j == last@.len(),
            decreases last@.len() - j,
        {
            assert(es[j as int].0 == last@[j as int].0@);
            if str_eq(last[j].0.as_str(), name.as_str()) {
                found = true;
                break;
            }
            j += 1;
        }
        if found && j < last.len() {
            proof { lemma_first_index_of(es, nm, j as int); }
            last.set(j, (name, info));
            assert(scope_model(last) =~= es.update(j as int, (nm, entry)));
        } else {
            proof {
                if exists|k: int| 0 <= k < es.len() && es[k].0 == nm {
                    let k = choose|k: int| 0 <= k < es.len() && es[k].0 == nm;
                    assert(es[k].0 != nm);
                }
            }
            last.push((name, info));
            assert(scope_model(last) =~= es.push((nm, entry)));
        }
        let ghost ls = scope_model(last);
        self.scopes.push(last);
        proof {
            lemma_grew_refl(self.ctx.diags@);
            assert(scopes_model(self.scopes@) =~= sm0.drop_last().push(ls));
        }
    }

    /// A statement, resolved.
    #[verifier::rlimit(60)]
    #[verifier::spinoff_prover]
    fn resolve_stmt(&mut self, stmt: Stmt) -> (r: RStmt)
        requires
            old(self).scopes@.len() >= 1,
            old(self).ids.next_var + lets_in(stmt) <= u32::MAX,
        ensures
            final(self).same_modules(old(self)),
            final(self).ids.next_var == old(self).ids.next_var + lets_in(stmt),
            ast_stmt_ok(stmt) && final(self).quiet_since(old(self)) ==> stmt_ok(r),
            (rstmt_model(r), final(self).stmt_state(), final(self).added(old(self)))
                == old(self).stmt_state().res_stmt(stmt),
        decreases stmt,
    {
        let ghost st0 = stmt;
        let ghost s0 = *self;
        let ghost ss0 = self.stmt_state();
        proof { lemma_grew_refl(self.ctx.diags@); lemma_added_none(*self); }
        match stmt.inner {
            StmtKind::Let { name, ty, val } => self.resolve_let(name, ty, val),
            StmtKind::Block(stmts) => {
                self.scopes.push(Vec::new());
                let ghost s1 = *self;
                let ghost ss1 = self.stmt_state();
                proof {
                    lemma_grew_refl(self.ctx.diags@);
                    assert(scope_model(self.scopes@.last()) =~= Seq::<(Seq<char>, (VarId, TyModel))>::empty());
                    assert(scopes_model(self.scopes@) =~= ss0.tables.scopes.push(Seq::empty()));
                    assert(ss1 == ss0.with_scopes(ss0.tables.scopes.push(Seq::empty())));
                    lemma_added_none(*self);
                }
                let ghost pv = stmts@;
                let mut rest = stmts;
                let mut resolved: Vec<RStmt> = Vec::new();
                let ghost mut i: int = 0;
                proof {
                    assert(pv.subrange(0, pv.len() as int) =~= pv);
                    assert(resolved@.map_values(|x: RStmt| rstmt_model(x)) =~= Seq::<RStmtM>::empty());
                }
                while rest.len() > 0
                    invariant
                        self.same_modules(&s1),
                        s1.scopes@.len() == s0.scopes@.len() + 1,
                        s1.ids == s0.ids,
                        s1.ctx.diags@ == s0.ctx.diags@,
                        st0 == stmt,
                        st0.inner == (StmtKind::Block(st0.inner->Block_0)),
                        st0.inner->Block_0@ == pv,
                        0 <= i <= pv.len(),
                        rest@ == pv.subrange(i, pv.len() as int),
                        resolved@.len() == i,
                        self.ids.next_var + lets_in_all(rest@) == s0.ids.next_var + lets_in_all(pv),
                        s0.ids.next_var + lets_in_all(pv) <= u32::MAX,
                        ast_stmts_ok(pv) && self.quiet_since(&s1) ==> ast_stmts_ok(rest@)
                            && forall|k: int| 0 <= k < i ==> stmt_ok(#[trigger] resolved@[k]),
                        ss1.res_stmts(pv) == (
                            resolved@.map_values(|x: RStmt| rstmt_model(x)) + self.stmt_state().res_stmts(rest@).0,
                            self.stmt_state().res_stmts(rest@).1,
                            self.added(&s1) + self.stmt_state().res_stmts(rest@).2,
                        ),
                    decreases rest@.len(),
                {
                    let ghost r0 = rest@;
                    let p = rest.remove(0);
                    proof {
                        assert(rest@ =~= r0.subrange(1, r0.len() as int));
                        assert(rest@ =~= pv.subrange(i + 1, pv.len() as int));
                        assert(p == pv[i]);
                        assert(r0[0] == p);
                        assert(decreases_to!(st0 => p)) by {
                            assert(decreases_to!(st0 => st0.inner));
                            assert(decreases_to!(st0.inner => st0.inner->Block_0));
                            assert(decreases_to!(st0.inner->Block_0 => st0.inner->Block_0@));
                            assert(decreases_to!(st0.inner->Block_0@ => st0.inner->Block_0@[i]));
                        }
                    }
                    let ghost sb = *self;
                    let ghost m0 = resolved@.map_values(|x: RStmt| rstmt_model(x));
                    let rs = self.resolve_stmt(p);
                    proof {
                        lemma_grew_trans(s1.ctx.diags@, sb.ctx.diags@, self.ctx.diags@);
                        lemma_added_grew(s1, sb, *self);
                        let (rm, stp, dp) = sb.stmt_state().res_stmt(p);
                        assert(sb.stmt_state().res_stmts(r0) == (
                            seq![rm] + stp.res_stmts(rest@).0,
                            stp.res_stmts(rest@).1,
                            dp + stp.res_stmts(rest@).2,
                        ));
                    }
                    let ghost rsm = rstmt_model(rs);
                    resolved.push(rs);
                    proof {
                        assert(resolved@.map_values(|x: RStmt| rstmt_model(x)) =~= m0.push(rsm));
                        let tail = self.stmt_state().res_stmts(rest@);
                        assert(m0.push(rsm) + tail.0 =~= m0 + (seq![rsm] + tail.0));
                        assert(self.added(&s1) + tail.2 =~= sb.added(&s1) + (self.added(&sb) + tail.2));
                        i = i + 1;
                    }
                }
                let ghost s2 = *self;
                let ghost rm = resolved@.map_values(|x: RStmt| rstmt_model(x));
                proof {
                    assert(rest@ =~= Seq::<Stmt>::empty());
                    assert(rm =~= rstmts_model(resolved));
                }
                self.scopes.pop();
                proof {
                    lemma_grew_trans(s0.ctx.diags@, s1.ctx.diags@, self.ctx.diags@);
                    if ast_stmts_ok(pv) && self.quiet_since(&s0) {
                        lemma_stmts_ok(resolved@);
                    }
                    assert(scopes_model(self.scopes@) =~= scopes_model(s2.scopes@).drop_last());
                    assert(self.added(&s0) =~= s2.added(&s1));
                }
                RStmt::Block(resolved)
            }
            StmtKind::If { cond, then_branch, else_branch } => {
                let rcond = self.resolve_expr(cond);
                let ghost s1 = *self;
                proof { assert(s1.stmt_state() == ss0); }
                let rthen = self.resolve_stmt(*then_branch);
                let ghost s2 = *self;
                proof {
                    lemma_grew_trans(s0.ctx.diags@, s1.ctx.diags@, self.ctx.diags@);
                    lemma_added_grew(s0, s1, s2);
                }
                let relse = match else_branch {
                    Some(b) => {
                        let r = self.resolve_stmt(*b);
                        proof {
                            lemma_grew_trans(s0.ctx.diags@, s2.ctx.diags@, self.ctx.diags@);
                            lemma_added_grew(s0, s2, *self);
                        }
                        Some(Box::new(r))
                    }
                    None => None,
                };
                proof {
                    if !(rcond.kind is Error) {
                        lemma_well_typed_ok(rcond);
                    }
                }
                RStmt::If { cond: rcond, then_branch: Box::new(rthen), else_branch: relse }
            }
            StmtKind::While { cond, body } => {
                let rcond = self.resolve_expr(cond);
                let ghost s1 = *self;
                proof { assert(s1.stmt_state() == ss0); }
                let rbody = self.resolve_stmt(*body);
                proof {
                    lemma_grew_trans(s0.ctx.diags@, s1.ctx.diags@, self.ctx.diags@);
                    lemma_added_grew(s0, s1, *self);
                    if !(rcond.kind is Error) {
                        lemma_well_typed_ok(rcond);
                    }
                }
                RStmt::While { cond: rcond, body: Box::new(rbody) }
            }
            StmtKind::Expr(e) => {
                let re = self.resolve_expr(e);
                proof {
                    assert(self.stmt_state() == ss0);
                    if !(re.kind is Error) {
                        lemma_well_typed_ok(re);
                    }
                }
                RStmt::Expr(re)
            }
            StmtKind::Asm(items) => {
                let r = self.resolve_asm(items);
                proof { assert(self.stmt_state() == ss0); }
                r
            }
            StmtKind::Return(val) => {
                match val {
                    Some(e) => {
                        let re = self.resolve_expr(e);
                        proof {
                            assert(self.stmt_state() == ss0);
                            if !(re.kind is Error) {
                                lemma_well_typed_ok(re);
                            }
                        }
                        RStmt::Return(Some(re))
                    }
                    None => RStmt::Return(None),
                }
            }
            StmtKind::Error => RStmt::Error,
        }
    }
}


impl Resolver {
    /// A `let` statement: its type from the annotation, else from the value;
    /// a new variable in the innermost scope.
    fn resolve_let(&mut self, name: Spanned<String>, ty: Option<Ty>, val: Option<Expr>) -> (r: RStmt)
        requires
            old(self).scopes@.len() >= 1,
            old(self).ids.next_var < u32::MAX,
        ensures
            final(self).same_modules(old(self)),
            final(self).ids.next_var == old(self).ids.next_var + 1,
            (match val {
                Some(e) => ast_expr_ok(e),
                None => true,
            }) && final(self).quiet_since(old(self)) ==> stmt_ok(r),
            (rstmt_model(r), final(self).stmt_state(), final(self).added(old(self)))
                == old(self).stmt_state().res_let(name, ty, val),
    {
        let ghost s0 = *self;
        let ghost st0 = self.stmt_state();
        let ghost v0 = val;
        proof { lemma_added_none(*self); lemma_grew_refl(self.ctx.diags@); }
        let rval = match val {
            Some(v) => Some(self.resolve_expr(v)),
            None => None,
        };
        let ghost s1 = *self;
        proof {
            assert(s1.stmt_state() == st0);
        }
        let final_ty = match (&ty, &rval) {
            (Some(t), Some(v)) => {
                if !matches!(v.kind, RExprKind::Error) && !same_ty(&v.ty, t) {
                    let tt = t.to_text();
                    let vt = v.ty.to_text();
                    let label = text_of(&["expected ", tt.as_str(), ", found ", vt.as_str()]);
                    assert(label@ =~= "expected "@ + ty_text(ty_model(*t)) + ", found "@ + ty_text(ty_model(v.ty))) by {
                        reveal_with_fuel(joined, 5);
                    }
                    self.error_labelled("type mismatch in let binding".to_owned(), label, name.span);
                    proof { lemma_grew_trans(s0.ctx.diags@, s1.ctx.diags@, self.ctx.diags@); }
                }
                copy_ty(t)
            }
            (Some(t), None) => copy_ty(t),
            (None, Some(v)) => copy_ty(&v.ty),
            (None, None) => {
                self.error_labelled("cannot infer the type of this variable".to_owned(),
                    "add a type annotation (`: TYPE`) or an initializer".to_owned(), name.span);
                proof { lemma_grew_trans(s0.ctx.diags@, s1.ctx.diags@, self.ctx.diags@); }
                Ty::Unit
            }
        };
        let ghost s2 = *self;
        proof {
            lemma_grew_refl(s1.ctx.diags@);
            lemma_added_grew(s0, s1, s2);
            assert(s2.stmt_state() == st0);
        }
        let var_id = self.new_var(copy_ty(&final_ty));
        let ghost s3 = *self;
        let ghost ft = ty_model(final_ty);
        self.declare(name.inner, VarInfo { id: var_id, ty: final_ty });
        proof {
            lemma_grew_trans(s0.ctx.diags@, s2.ctx.diags@, s3.ctx.diags@);
            lemma_grew_trans(s0.ctx.diags@, s3.ctx.diags@, self.ctx.diags@);
            lemma_grew_refl(s2.ctx.diags@);
            lemma_added_grew(s0, s2, *self);
            lemma_added_none(s2);
            assert(self.added(&s2) =~= s2.added(&s2));
            if rval is Some && !(rval->0.kind is Error) {
                lemma_well_typed_ok(rval->0);
            }
        }
        RStmt::Let { var: var_id, val: rval }
    }

    /// An item of inline assembly, resolved.
    fn resolve_asm_item(&mut self, item: Spanned<AsmItem>) -> (r: RAsmItem)
        ensures
            final(self).same_tables(old(self)),
            ast_asm_item_ok(item.inner) && final(self).quiet_since(old(self)) ==> asm_item_ok(r),
            (rasm_model(r), final(self).added(old(self))) == old(self).tables().res_asm_item(item),
    {
        proof { lemma_added_none(*self); }
        let ghost it0 = item;
        let r = match item.inner {
            AsmItem::In { reg, expr } => {
                let rexpr = self.resolve_expr(expr);
                proof {
                    if !(rexpr.kind is Error) {
                        lemma_well_typed_ok(rexpr);
                    }
                }
                RAsmItem::In { reg: conv_reg(reg.inner), expr: rexpr }
            }
            AsmItem::Out { reg, lval } => {
                let (rlval, _ty) = self.resolve_lval(lval, item.span);
                proof {
                    if !(rlval is Error) {
                        lemma_lval_typed_ok(rlval, ty_model(_ty));
                    }
                }
                RAsmItem::Out { reg: conv_reg(reg.inner), lval: rlval }
            }
            AsmItem::Instr { mnemonic, args } => {
                let mut rargs: Vec<RAsmOperand> = Vec::new();
                let mut k: usize = 0;
                while k < args.len()
                    invariant
                        k <= args@.len(),
                        rargs@.len() == k,
                        forall|j: int| 0 <= j < k && !(#[trigger] args@[j].inner is Error) ==> !(rargs@[j] is Error),
                        forall|j: int| 0 <= j < k ==> #[trigger] rargs@[j] == operand_of(args@[j].inner),
                    decreases args@.len() - k,
                {
                    let a = match args[k].inner {
                        AsmOperand::Reg(r) => RAsmOperand::Reg(conv_reg(r)),
                        AsmOperand::Imm(n) => RAsmOperand::Imm(n),
                        AsmOperand::Error => RAsmOperand::Error,
                    };
                    rargs.push(a);
                    k += 1;
                }
                proof {
                    lemma_grew_refl(self.ctx.diags@);
                    assert(rargs@ =~= args@.map_values(|a: Spanned<AsmOperand>| operand_of(a.inner)));
                    if ast_asm_item_ok(item.inner) {
                        assert forall|j: int| 0 <= j < rargs@.len() implies !(rargs@[j] is Error) by {
                            assert(!(args@[j].inner is Error));
                        }
                    }
                }
                RAsmItem::Instr { mnemonic: mnemonic.inner, args: rargs }
            }
            AsmItem::Error => {
                proof { lemma_grew_refl(self.ctx.diags@); }
                RAsmItem::Error
            }
        };
        r
    }

    /// An inline assembly statement, resolved item by item.
    #[verifier::rlimit(50)]
    #[verifier::spinoff_prover]
    fn resolve_asm(&mut self, items: Vec<Spanned<AsmItem>>) -> (r: RStmt)
        ensures
            final(self).same_tables(old(self)),
            ast_asm_ok(items@) && final(self).quiet_since(old(self)) ==> stmt_ok(r),
            (rstmt_model(r), final(self).added(old(self))) == (
                RStmtM::Asm(old(self).tables().res_asm_items(items@).0),
                old(self).tables().res_asm_items(items@).1,
            ),
    {
        let ghost s0 = *self;
        let ghost t0 = self.tables();
        let ghost pv = items@;
        let mut rest = items;
        let mut resolved: Vec<RAsmItem> = Vec::new();
        let ghost mut i: int = 0;
        proof {
            assert(pv.subrange(0, pv.len() as int) =~= pv);
            lemma_grew_refl(self.ctx.diags@);
            lemma_added_none(*self);
            assert(resolved@.map_values(|x: RAsmItem| rasm_model(x)) =~= Seq::<RAsmItemM>::empty());
        }
        while rest.len() > 0
            invariant
                self.same_tables(&s0),
                t0 == s0.tables(),
                0 <= i <= pv.len(),
                rest@ == pv.subrange(i, pv.len() as int),
                resolved@.len() == i,
                t0.res_asm_items(pv).0 == resolved@.map_values(|x: RAsmItem| rasm_model(x)) + t0.res_asm_items(rest@).0,
                t0.res_asm_items(pv).1 == self.added(&s0) + t0.res_asm_items(rest@).1,
                ast_asm_ok(pv) && self.quiet_since(&s0) ==> ast_asm_ok(rest@)
                    && forall|k: int| 0 <= k < i ==> asm_item_ok(#[trigger] resolved@[k]),
            decreases rest@.len(),
        {
            let ghost r0 = rest@;
            let p = rest.remove(0);
            proof {
                assert(rest@ =~= r0.subrange(1, r0.len() as int));
                assert(rest@ =~= pv.subrange(i + 1, pv.len() as int));
                assert(p == pv[i]);
                if ast_asm_ok(r0) {
                    assert(r0[0] == p);
                    assert(ast_asm_item_ok(p.inner));
                }
            }
            let ghost sb = *self;
            let ghost m0 = resolved@.map_values(|x: RAsmItem| rasm_model(x));
            let ri = self.resolve_asm_item(p);
            proof {
                lemma_tables_trans(s0, sb, *self);
                lemma_added_trans(s0, sb, *self);
                assert(r0[0] == p);
                let (am, ad) = t0.res_asm_item(p);
                assert(t0.res_asm_items(r0) == (seq![am] + t0.res_asm_items(rest@).0, ad + t0.res_asm_items(rest@).1));
            }
            let ghost rm = rasm_model(ri);
            resolved.push(ri);
            proof {
                assert(resolved@.map_values(|x: RAsmItem| rasm_model(x)) =~= m0.push(rm));
                assert(m0.push(rm) + t0.res_asm_items(rest@).0 =~= m0 + (seq![rm] + t0.res_asm_items(rest@).0));
                assert(self.added(&s0) + t0.res_asm_items(rest@).1 =~= sb.added(&s0) + (self.added(&sb) + t0.res_asm_items(rest@).1));
                i = i + 1;
            }
        }
        proof {
            assert(rest@ =~= Seq::<Spanned<AsmItem>>::empty());
            assert(t0.res_asm_items(pv).0 =~= resolved@.map_values(|x: RAsmItem| rasm_model(x)));
            assert(t0.res_asm_items(pv).1 =~= self.added(&s0));
        }
        proof {
            if ast_asm_ok(pv) && self.quiet_since(&s0) {
                lemma_asm_ok(resolved@);
            }
        }
        RStmt::Asm(resolved)
    }
}


/// The variables the defined functions of some items declare: their
/// parameters and the variables of their bodies.
pub open spec fn vars_in_items(items: Seq<Spanned<ItemKind>>) -> nat
    decreases items.len(),
{
    if items.len() == 0 {
        0
    } else {
        vars_in_items(items.drop_last()) + match items.last().inner {
            ItemKind::FunctionDefined { params, body, .. } => params@.len() + lets_in(body),
            _ => 0,
        }
    }
}

/// The functions some items declare, external or defined.
pub open spec fn funcs_in_items(items: Seq<Spanned<ItemKind>>) -> nat
    decreases items.len(),
{
    if items.len() == 0 {
        0
    } else {
        funcs_in_items(items.drop_last()) + match items.last().inner {
            ItemKind::FunctionDefined { .. } | ItemKind::FunctionExternal { .. } => 1nat,
            _ => 0,
        }
    }
}

/// Whether the bodies of the defined functions of some items hold no error node.
pub open spec fn items_ast_ok(items: Seq<Spanned<ItemKind>>) -> bool {
    forall|k: int| 0 <= k < items.len() ==> match (#[trigger] items[k]).inner {
        ItemKind::FunctionDefined { body, .. } => ast_stmt_ok(body),
        _ => true,
    }
}

impl Resolver {
    /// The context: the current source file and the diagnostics so far.
    pub closed spec fn context(&self) -> CompilerCtx {
        self.ctx
    }

    /// The modules resolved so far.
    pub closed spec fn resolved(&self) -> Seq<RModule> {
        self.modules@
    }

    /// The next variable number.
    pub closed spec fn next_var(&self) -> nat {
        self.ids.next_var as nat
    }

    /// The next function number.
    pub closed spec fn next_func(&self) -> nat {
        self.ids.next_func as nat
    }

    /// The module names registered so far, with their modules, in order.
    pub closed spec fn module_table(&self) -> Seq<(Seq<char>, ModuleId)> {
        keyed(self.module_names@)
    }

    /// The imports registered so far: for each module, the modules it imports.
    pub closed spec fn import_table(&self) -> Seq<(ModuleId, Seq<ModuleId>)> {
        imports_view(self.module_imports@)
    }

    /// The function tables registered so far: for each module, its functions
    /// by name with their numbers and types.
    pub closed spec fn function_tables(&self) -> Seq<(ModuleId, Seq<(Seq<char>, (FuncId, TyModel))>)> {
        tables_view(self.functions@)
    }

    /// A resolver with nothing registered, reporting into `ctx`.
    pub fn new(ctx: CompilerCtx) -> (r: Self)
        ensures
            r.context() == ctx,
            r.resolved().len() == 0,
            r.next_var() == 0,
            r.next_func() == 0,
            r.function_tables() == Seq::<(ModuleId, Seq<(Seq<char>, (FuncId, TyModel))>)>::empty(),
            r.module_table() == Seq::<(Seq<char>, ModuleId)>::empty(),
            r.import_table() == Seq::<(ModuleId, Seq<ModuleId>)>::empty(),
    {
        let v: Vec<(ModuleId, Vec<(String, FuncInfo)>)> = Vec::new();
        assert(tables_view(v@) =~= Seq::<(ModuleId, Seq<(Seq<char>, (FuncId, TyModel))>)>::empty());
        let n: Vec<(String, ModuleId)> = Vec::new();
        let im: Vec<(ModuleId, Vec<ModuleId>)> = Vec::new();
        assert(keyed(n@) =~= Seq::<(Seq<char>, ModuleId)>::empty());
        assert(imports_view(im@) =~= Seq::<(ModuleId, Seq<ModuleId>)>::empty());
        Resolver {
            ctx,
            ids: ResolverIds { next_func: 0, next_var: 0 },
            modules: Vec::new(),
            module_names: n,
            module_imports: im,
            current_module: ModuleId(0),
            current_locals: Vec::new(),
            scopes: Vec::new(),
            functions: v,
        }
    }

    /// Registers module `name` as `module_id` with its functions, each
    /// numbered in order.
    pub fn register_module(&mut self, name: &str, module_id: ModuleId, program: &Program)
        requires
            old(self).next_func() + funcs_in_items(program.items@) <= u32::MAX,
        ensures
            final(self).next_func() == old(self).next_func() + funcs_in_items(program.items@),
            final(self).next_var() == old(self).next_var(),
            final(self).resolved() == old(self).resolved(),
            final(self).context() == old(self).context(),
            final(self).module_table() == upsert(old(self).module_table(), name@, module_id),
            final(self).import_table() == old(self).import_table(),
            final(self).function_tables() == upsert(
                old(self).function_tables(),
                module_id,
                items_table(program.items@, old(self).next_func()),
            ),
    {
        insert_module_name(&mut self.module_names, name, module_id);
        let mut fns: Vec<(String, FuncInfo)> = Vec::new();
        let mut i: usize = 0;
        let ghost items = program.items@;
        let ghost k0 = old(self).ids.next_func as nat;
        proof { assert(items.take(0) =~= Seq::<Spanned<ItemKind>>::empty()); }
        while i < program.items.len()
            invariant
                i <= items.len(),
                items == program.items@,
                self.ids.next_func == k0 + funcs_in_items(items.take(i as int)),
                k0 == old(self).ids.next_func,
                k0 + funcs_in_items(items) <= u32::MAX,
                self.ids.next_var == old(self).ids.next_var,
                self.modules == old(self).modules,
                self.ctx == old(self).ctx,
                self.functions == old(self).functions,
                self.module_imports == old(self).module_imports,
                keyed(self.module_names@) == upsert(keyed(old(self).module_names@), name@, module_id),
                fn_entries(fns@) == items_table(items.take(i as int), k0),
            decreases items.len() - i,
        {
            proof {
                assert(items.take(i + 1).drop_last() =~= items.take(i as int));
                assert(items.take(i + 1).last() == items[i as int]);
                lemma_funcs_in_items_prefix(items, i + 1);
            }
            let info = match &program.items[i].inner {
                ItemKind::FunctionExternal { name, params, ret } => {
                    let mut ps: Vec<Ty> = Vec::new();
                    let mut j: usize = 0;
                    while j < params.len()
                        invariant
                            j <= params@.len(),
                            ps@.len() == j,
                            forall|q: int| 0 <= q < j ==> ty_model(#[trigger] ps@[q]) == ty_model(params@[q]),
                        decreases params@.len() - j,
                    {
                        ps.push(copy_ty(&params[j]));
                        j += 1;
                    }
                    let ty = Ty::Func(ps, Box::new(copy_ty(ret)));
                    assert(tys_model(ps) =~= tys_model(*params));
                    Some((name.inner.as_str(), ty))
                }
                ItemKind::FunctionDefined { name, params, ret, .. } => {
                    let mut ps: Vec<Ty> = Vec::new();
                    let mut j: usize = 0;
                    while j < params.len()
                        invariant
                            j <= params@.len(),
                            ps@.len() == j,
                            forall|q: int| 0 <= q < j ==> ty_model(#[trigger] ps@[q]) == ty_model(params@[q].1),
                        decreases params@.len() - j,
                    {
                        ps.push(copy_ty(&params[j].1));
                        j += 1;
                    }
                    let ty = Ty::Func(ps, Box::new(copy_ty(ret)));
                    assert(tys_model(ps) =~= params@.map_values(|p: (Spanned<String>, Ty)| ty_model(p.1)));
                    Some((name.inner.as_str(), ty))
                }
                _ => None,
            };
            proof {
                match item_signature(items[i as int].inner) {
                    Some(sig) => {
                        assert(info matches Some(x) && x.0@ == sig.0 && ty_model(x.1) == sig.1);
                    }
                    None => {
                        assert(info is None);
                    }
                }
            }
            if let Some((fname, ty)) = info {
                let id = FuncId(self.ids.next_func);
                self.ids.next_func = self.ids.next_func + 1;
                insert_func(&mut fns, fname, FuncInfo { id, ty });
            }
            i += 1;
        }
        proof { assert(items.take(items.len() as int) =~= items); }
        insert_function_table(&mut self.functions, module_id, fns);
    }

    /// Records the modules that `module_id` imports, reporting unknown ones.
    pub fn register_imports(&mut self, module_id: ModuleId, program: &Program)
        ensures
            final(self).next_func() == old(self).next_func(),
            final(self).next_var() == old(self).next_var(),
            final(self).resolved() == old(self).resolved(),
            final(self).context().source == old(self).context().source,
            grew(final(self).context().diags@, old(self).context().diags@),
            final(self).function_tables() == old(self).function_tables(),
            final(self).module_table() == old(self).module_table(),
            final(self).import_table() == upsert(
                old(self).import_table(),
                module_id,
                imports_found(old(self).module_table(), program.items@),
            ),
            diags_view(final(self).context().diags@.subrange(
                old(self).context().diags@.len() as int,
                final(self).context().diags@.len() as int,
            )) == import_errors(old(self).module_table(), program.items@),
    {
        let mut imports: Vec<ModuleId> = Vec::new();
        let mut i: usize = 0;
        let ghost items = program.items@;
        let ghost names = keyed(self.module_names@);
        let ghost s0 = *self;
        proof {
            lemma_grew_refl(self.ctx.diags@);
            lemma_added_none(*self);
            assert(items.take(0) =~= Seq::<Spanned<ItemKind>>::empty());
        }
        while i < program.items.len()
            invariant
                items == program.items@,
                i <= items.len(),
                names == keyed(self.module_names@),
                self.ids == old(self).ids,
                self.modules == old(self).modules,
                self.functions == old(self).functions,
                self.module_names == old(self).module_names,
                self.module_imports == old(self).module_imports,
                self.ctx.source == old(self).ctx.source,
                s0 == *old(self),
                grew(self.ctx.diags@, old(self).ctx.diags@),
                imports@ == imports_found(names, items.take(i as int)),
                self.added(&s0) == import_errors(names, items.take(i as int)),
            decreases program.items@.len() - i,
        {
            let ghost sb = *self;
            proof {
                assert(items.take(i + 1).drop_last() =~= items.take(i as int));
                assert(items.take(i + 1).last() == items[i as int]);
                lemma_grew_refl(self.ctx.diags@);
                lemma_added_none(*self);
            }
            if let ItemKind::Import(name) = &program.items[i].inner {
                match self.find_module(name.inner.as_str()) {
                    Some(imported) => {
                        let ghost before = imports@;
                        imports.push(imported);
                        proof {
                            let fk = first_index_of(names, name.inner@);
                            lemma_first_index_some(names, name.inner@);
                            assert(fk is Some);
                            let k = fk->0;
                            assert(0 <= k < names.len());
                            assert(imported == self.module_names@[k].1);
                            assert(names[k] == (self.module_names@[k].0@, self.module_names@[k].1));
                            assert(imports@ =~= before + seq![names[k].1]);
                        }
                    }
                    None => {
                        let msg = text_of(&["unknown module `", name.inner.as_str(), "`"]);
                        assert(msg@ =~= "unknown module `"@ + name.inner@ + "`"@) by {
                            reveal_with_fuel(joined, 4);
                        }
                        self.error(msg, name.span);
                    }
                }
            }
            proof {
                lemma_added_grew(s0, sb, *self);
                assert(imports_found(names, items.take(i as int)) + Seq::<ModuleId>::empty()
                    =~= imports_found(names, items.take(i as int)));
            }
            i += 1;
        }
        proof { assert(items.take(items.len() as int) =~= items); }
        let ghost it0 = self.import_table();
        let mut m: usize = 0;
        let mut present = false;
        while m < self.module_imports.len()
            invariant_except_break
                !present,
            invariant
                m <= self.module_imports@.len(),
                it0 == self.import_table(),
                forall|q: int| 0 <= q < m ==> it0[q].0 != module_id,
            ensures
                m <= self.module_imports@.len(),
                forall|q: int| 0 <= q < m ==> it0[q].0 != module_id,
                present ==> m < self.module_imports@.len() && it0[m as int].0 == module_id,
                !present ==> m == self.module_imports@.len(),
            decreases self.module_imports@.len() - m,
        {
            assert(it0[m as int].0 == self.module_imports@[m as int].0);
            if self.module_imports[m].0 == module_id {
                present = true;
                break;
            }
            m += 1;
        }
        let ghost iv = imports@;
        if present && m < self.module_imports.len() {
            proof { lemma_first_index_of(it0, module_id, m as int); }
            self.module_imports.set(m, (module_id, imports));
            assert(self.import_table() =~= it0.update(m as int, (module_id, iv)));
        } else {
            proof {
                if exists|k: int| 0 <= k < it0.len() && it0[k].0 == module_id {
                    let k = choose|k: int| 0 <= k < it0.len() && it0[k].0 == module_id;
                    assert(it0[k].0 != module_id);
                }
            }
            self.module_imports.push((module_id, imports));
            assert(self.import_table() =~= it0.push((module_id, iv)));
        }
    }

    /// The resolved modules as a program.
    pub fn into_program(self) -> (p: RProgram)
        ensures
            p.modules@ == self.resolved(),
    {
        RProgram { modules: self.modules }
    }

    /// The modules resolved, and the context with the diagnostics emitted.
    pub fn into_parts(self) -> (r: (RProgram, CompilerCtx))
        ensures
            r.0.modules@ == self.resolved(),
            r.1 == self.context(),
    {
        (RProgram { modules: self.modules }, self.ctx)
    }
}

/// The name and the type's model of a function item; `None` for the others.
pub open spec fn item_signature(item: ItemKind) -> Option<(Seq<char>, TyModel)> {
    match item {
        ItemKind::FunctionExternal { name, params, ret } => Some(
            (name.inner@, TyModel::Func(tys_model(params), Box::new(ty_model(ret)))),
        ),
        ItemKind::FunctionDefined { name, params, ret, .. } => Some(
            (
                name.inner@,
                TyModel::Func(
                    params@.map_values(|p: (Spanned<String>, Ty)| ty_model(p.1)),
                    Box::new(ty_model(ret)),
                ),
            ),
        ),
        _ => None,
    }
}

/// The function table of a module with these items, its functions numbered
/// from `k0` in the order of the items; a later item of a name takes the
/// place of an earlier one, and still uses up a number.
pub open spec fn items_table(items: Seq<Spanned<ItemKind>>, k0: nat) -> Seq<(Seq<char>, (FuncId, TyModel))>
    decreases items.len(),
{
    if items.len() == 0 {
        Seq::empty()
    } else {
        let prev = items_table(items.drop_last(), k0);
        match item_signature(items.last().inner) {
            Some(sig) => upsert(prev, sig.0, (FuncId((k0 + funcs_in_items(items.drop_last())) as u32), sig.1)),
            None => prev,
        }
    }
}

/// The function named `name` in the first table of `module`, by the tables
/// as `function_tables` shows them.
pub open spec fn table_lookup(
    tables: Seq<(ModuleId, Seq<(Seq<char>, (FuncId, TyModel))>)>,
    module: ModuleId,
    name: Seq<char>,
) -> Option<(FuncId, TyModel)> {
    match first_index_of(tables, module) {
        Some(m) => match first_index_of(tables[m].1, name) {
            Some(k) => Some(tables[m].1[k].1),
            None => None,
        },
        None => None,
    }
}

/// The functions that resolving a module with these items gives, in order:
/// for each defined function that its module's table knows, its number,
/// name, parameter types and return type.
pub open spec fn defined_fns(
    tables: Seq<(ModuleId, Seq<(Seq<char>, (FuncId, TyModel))>)>,
    module: ModuleId,
    items: Seq<Spanned<ItemKind>>,
) -> Seq<(FuncId, Seq<char>, Seq<Ty>, Ty)>
    decreases items.len(),
{
    if items.len() == 0 {
        Seq::empty()
    } else {
        let prev = defined_fns(tables, module, items.drop_last());
        match items.last().inner {
            ItemKind::FunctionDefined { name, params, ret, .. } => match table_lookup(tables, module, name.inner@) {
                Some(e) => prev.push((e.0, name.inner@, params@.map_values(|p: (Spanned<String>, Ty)| p.1), ret)),
                None => prev,
            },
            _ => prev,
        }
    }
}

/// What a resolved function shows of its signature: its number, name,
/// parameter types and return type.
pub open spec fn fn_signature(f: RFunction) -> (FuncId, Seq<char>, Seq<Ty>, Ty) {
    (f.id, f.name@, f.params@.map_values(|p: (VarId, Ty)| p.1), f.ret)
}

/// The modules that the imports among `items` name, in order, by the first
/// registered module of each name; unknown names are left out.
pub open spec fn imports_found(names: Seq<(Seq<char>, ModuleId)>, items: Seq<Spanned<ItemKind>>) -> Seq<ModuleId>
    decreases items.len(),
{
    if items.len() == 0 {
        Seq::empty()
    } else {
        imports_found(names, items.drop_last()) + match items.last().inner {
            ItemKind::Import(n) => match first_index_of(names, n.inner@) {
                Some(k) => seq![names[k].1],
                None => Seq::empty(),
            },
            _ => Seq::empty(),
        }
    }
}

/// The errors that the imports among `items` of unknown modules give, in order.
pub open spec fn import_errors(names: Seq<(Seq<char>, ModuleId)>, items: Seq<Spanned<ItemKind>>) -> Seq<DiagModel>
    decreases items.len(),
{
    if items.len() == 0 {
        Seq::empty()
    } else {
        import_errors(names, items.drop_last()) + match items.last().inner {
            ItemKind::Import(n) => match first_index_of(names, n.inner@) {
                Some(_) => Seq::empty(),
                None => seq![error_diag("unknown module `"@ + n.inner@ + "`"@, n.span)],
            },
            _ => Seq::empty(),
        }
    }
}

/// The function tables, by module, as `function_tables` shows them.
spec fn tables_view(t: Seq<(ModuleId, Vec<(String, FuncInfo)>)>) -> Seq<(ModuleId, Seq<(Seq<char>, (FuncId, TyModel))>)> {
    t.map_values(|e: (ModuleId, Vec<(String, FuncInfo)>)| (e.0, fn_entries(e.1@)))
}

/// Functions by name, as the names, numbers and types' models.
spec fn fn_entries(v: Seq<(String, FuncInfo)>) -> Seq<(Seq<char>, (FuncId, TyModel))> {
    v.map_values(|e: (String, FuncInfo)| (e.0@, (e.1.id, ty_model(e.1.ty))))
}

/// Records module `id` under `name`, replacing the first entry of that name
/// or else adding one at the end.
fn insert_module_name(names: &mut Vec<(String, ModuleId)>, name: &str, id: ModuleId)
    ensures
        keyed(final(names)@) == upsert(keyed(old(names)@), name@, id),
{
    let ghost es = keyed(names@);
    let mut j: usize = 0;
    let mut found = false;
    while j < names.len()
        invariant_except_break
            !found,
        invariant
            es == keyed(names@),
            j <= names@.len(),
            forall|q: int| 0 <= q < j ==> es[q].0 != name@,
        ensures
            es == keyed(names@),
            j <= names@.len(),
            forall|q: int| 0 <= q < j ==> es[q].0 != name@,
            found ==> j < names@.len() && es[j as int].0 == name@,
            !found ==> j == names@.len(),
        decreases names@.len() - j,
    {
        if str_eq(names[j].0.as_str(), name) {
            found = true;
            break;
        }
        j += 1;
    }
    if found && j < names.len() {
        proof { lemma_first_index_of(es, name@, j as int); }
        names.set(j, (name.to_owned(), id));
        assert(keyed(names@) =~= es.update(j as int, (name@, id)));
    } else {
        proof {
            if exists|k: int| 0 <= k < es.len() && es[k].0 == name@ {
                let k = choose|k: int| 0 <= k < es.len() && es[k].0 == name@;
                assert(es[k].0 != name@);
            }
        }
        names.push((name.to_owned(), id));
        assert(keyed(names@) =~= es.push((name@, id)));
    }
}

/// Records `fns` as the function table of `module_id`, replacing the first
/// table of that module or else adding one at the end.
fn insert_function_table(
    tables: &mut Vec<(ModuleId, Vec<(String, FuncInfo)>)>,
    module_id: ModuleId,
    fns: Vec<(String, FuncInfo)>,
)
    ensures
        tables_view(final(tables)@) == upsert(tables_view(old(tables)@), module_id, fn_entries(fns@)),
{
    let ghost es = tables_view(tables@);
    let mut m: usize = 0;
    let mut found = false;
    while m < tables.len()
        invariant_except_break
            !found,
        invariant
            es == tables_view(tables@),
            m <= tables@.len(),
            forall|q: int| 0 <= q < m ==> es[q].0 != module_id,
        ensures
            es == tables_view(tables@),
            m <= tables@.len(),
            forall|q: int| 0 <= q < m ==> es[q].0 != module_id,
            found ==> m < tables@.len() && es[m as int].0 == module_id,
            !found ==> m == tables@.len(),
        decreases tables@.len() - m,
    {
        if tables[m].0 == module_id {
            found = true;
            break;
        }
        m += 1;
    }
    let ghost entry = (module_id, fn_entries(fns@));
    if found && m < tables.len() {
        proof { lemma_first_index_of(es, module_id, m as int); }
        tables.set(m, (module_id, fns));
        assert(tables_view(tables@) =~= es.update(m as int, entry));
    } else {
        proof {
            if exists|k: int| 0 <= k < es.len() && es[k].0 == module_id {
                let k = choose|k: int| 0 <= k < es.len() && es[k].0 == module_id;
                assert(es[k].0 != module_id);
            }
        }
        tables.push((module_id, fns));
        assert(tables_view(tables@) =~= es.push(entry));
    }
}

/// Records what is known of function `name`, replacing the first entry of
/// that name or else adding one at the end.
fn insert_func(fns: &mut Vec<(String, FuncInfo)>, name: &str, info: FuncInfo)
    ensures
        fn_entries(final(fns)@) == upsert(fn_entries(old(fns)@), name@, (info.id, ty_model(info.ty))),
{
    let ghost es = fn_entries(fns@);
    let mut j: usize = 0;
    let mut found = false;
    while j < fns.len()
        invariant_except_break
            !found,
        invariant
            es == fn_entries(fns@),
            j <= fns@.len(),
            forall|q: int| 0 <= q < j ==> es[q].0 != name@,
        ensures
            es == fn_entries(fns@),
            j <= fns@.len(),
            forall|q: int| 0 <= q < j ==> es[q].0 != name@,
            found ==> j < fns@.len() && es[j as int].0 == name@,
            !found ==> j == fns@.len(),
        decreases fns@.len() - j,
    {
        if str_eq(fns[j].0.as_str(), name) {
            found = true;
            break;
        }
        j += 1;
    }
    let ghost new_entry = (name@, (info.id, ty_model(info.ty)));
    if found && j < fns.len() {
        proof { lemma_first_index_of(es, name@, j as int); }
        fns.set(j, (name.to_owned(), info));
        assert(fn_entries(fns@) =~= es.update(j as int, new_entry));
    } else {
        proof {
            if exists|k: int| 0 <= k < es.len() && es[k].0 == name@ {
                let k = choose|k: int| 0 <= k < es.len() && es[k].0 == name@;
                assert(es[k].0 != name@);
            }
        }
        fns.push((name.to_owned(), info));
        assert(fn_entries(fns@) =~= es.push(new_entry));
    }
}

/// The functions of the first items are no more than those of all.
proof fn lemma_funcs_in_items_prefix(items: Seq<Spanned<ItemKind>>, i: int)
    requires
        0 <= i <= items.len(),
    ensures
        funcs_in_items(items.take(i)) <= funcs_in_items(items),
    decreases items.len() - i,
{
    if i < items.len() {
        lemma_funcs_in_items_prefix(items, i + 1);
        assert(items.take(i + 1).drop_last() =~= items.take(i));
    } else {
        assert(items.take(i) =~= items);
    }
}


impl Resolver {
    /// A defined function of `module_id`: its parameters as variables in a
    /// fresh scope, then its body; `None` when no such function was registered.
    fn resolve_function(&mut self, module_id: ModuleId, name: &str, params: Vec<(Spanned<String>, Ty)>, ret: Ty, body: Stmt) -> (r: Option<RFunction>)
        requires
            old(self).ids.next_var + params@.len() + lets_in(body) <= u32::MAX,
        ensures
            final(self).ctx.source == old(self).ctx.source,
            grew(final(self).ctx.diags@, old(self).ctx.diags@),
            final(self).ids.next_func == old(self).ids.next_func,
            final(self).ids.next_var <= old(self).ids.next_var + params@.len() + lets_in(body),
            final(self).modules == old(self).modules,
            final(self).current_module == old(self).current_module,
            r matches Some(f) ==> f.module == module_id && f.params@.len() == params@.len()
                && (ast_stmt_ok(body) && final(self).quiet_since(old(self)) ==> stmt_ok(f.body)),
            final(self).functions == old(self).functions,
            match table_lookup(tables_view(old(self).functions@), module_id, name@) {
                Some(e) => r matches Some(f) && fn_signature(f)
                    == (e.0, name@, params@.map_values(|p: (Spanned<String>, Ty)| p.1), ret),
                None => r is None,
            },
            final(self).module_names == old(self).module_names,
            final(self).module_imports == old(self).module_imports,
            r is None ==> final(self).ids == old(self).ids && final(self).ctx.diags@ == old(self).ctx.diags@,
            r matches Some(f) ==> (fn_body(f), final(self).ids.next_var as nat, final(self).added(old(self))) == {
                let (ids, locals, b, nv, d) = old(self).function_entry().res_function(params@, body);
                ((ids, locals, b), nv, d)
            },
    {
        let ghost ptys = params@.map_values(|p: (Spanned<String>, Ty)| p.1);
        let ghost ps0 = params@;
        let ghost ret0 = ret;
        let ghost ent = self.function_entry();
        let id = match self.find_func_in(module_id, name) {
            Some(info) => info.id,
            None => {
                proof { lemma_grew_refl(self.ctx.diags@); }
                return None;
            }
        };
        self.current_locals = Vec::new();
        let mut scopes: Vec<Vec<(String, VarInfo)>> = Vec::new();
        scopes.push(Vec::new());
        self.scopes = scopes;
        proof {
            assert(scope_model(self.scopes@[0]) =~= Seq::<(Seq<char>, (VarId, TyModel))>::empty());
            assert(scopes_model(self.scopes@) =~= seq![Seq::<(Seq<char>, (VarId, TyModel))>::empty()]);
            assert(self.current_locals@.map_values(|t: Ty| ty_model(t)) =~= Seq::<TyModel>::empty());
            assert(self.stmt_state() == ent);
        }
        let mut rest = params;
        let mut rparams: Vec<(VarId, Ty)> = Vec::new();
        let ghost n = rest@.len();
        proof {
            lemma_grew_refl(self.ctx.diags@);
            assert(rparams@.map_values(|p: (VarId, Ty)| p.0) =~= Seq::<VarId>::empty());
        }
        while rest.len() > 0
            invariant
                ent.declare_params(ps0) == (
                    rparams@.map_values(|p: (VarId, Ty)| p.0) + self.stmt_state().declare_params(rest@).0,
                    self.stmt_state().declare_params(rest@).1,
                ),
                self.module_names == old(self).module_names,
                self.module_imports == old(self).module_imports,
                self.scopes@.len() == 1,
                self.ctx.source == old(self).ctx.source,
                self.ctx.diags@ == old(self).ctx.diags@,
                self.ids.next_func == old(self).ids.next_func,
                self.ids.next_var + rest@.len() == old(self).ids.next_var + n,
                old(self).ids.next_var + n + lets_in(body) <= u32::MAX,
                rparams@.len() + rest@.len() == n,
                self.modules == old(self).modules,
                self.functions == old(self).functions,
                self.current_module == old(self).current_module,
                rparams@.map_values(|p: (VarId, Ty)| p.1) + rest@.map_values(|p: (Spanned<String>, Ty)| p.1) == ptys,
            decreases rest@.len(),
        {
            let ghost r0 = rest@;
            let ghost rp0 = rparams@;
            let (pname, pty) = rest.remove(0);
            proof {
                assert(rest@ =~= r0.subrange(1, r0.len() as int));
                assert(r0.map_values(|p: (Spanned<String>, Ty)| p.1) =~= seq![pty] + rest@.map_values(|p: (Spanned<String>, Ty)| p.1));
            }
            let ghost stb = self.stmt_state();
            let ghost rid0 = rparams@.map_values(|p: (VarId, Ty)| p.0);
            proof {
                assert(r0[0] == (pname, pty));
                let id = VarId(stb.next_var as u32);
                let t = ty_model(pty);
                let st1 = StmtState { next_var: stb.next_var + 1, locals: stb.locals.push(t), ..stb }
                    .declared(pname.inner@, id, t);
                assert(stb.declare_params(r0) == (seq![id] + st1.declare_params(rest@).0, st1.declare_params(rest@).1));
            }
            let var_id = self.new_var(copy_ty(&pty));
            let ghost sd = self.ctx.diags@;
            self.declare(pname.inner, VarInfo { id: var_id, ty: copy_ty(&pty) });
            let ghost pt = pty;
            rparams.push((var_id, pty));
            proof {
                assert(rparams@.map_values(|p: (VarId, Ty)| p.0) =~= rid0.push(var_id));
                assert(rid0.push(var_id) + self.stmt_state().declare_params(rest@).0
                    =~= rid0 + (seq![var_id] + self.stmt_state().declare_params(rest@).0));
                assert(rparams@.map_values(|p: (VarId, Ty)| p.1) =~= rp0.map_values(|p: (VarId, Ty)| p.1).push(pt));
                assert(rp0.map_values(|p: (VarId, Ty)| p.1) + seq![pt] + rest@.map_values(|p: (Spanned<String>, Ty)| p.1)
                    =~= rp0.map_values(|p: (VarId, Ty)| p.1) + (seq![pt] + rest@.map_values(|p: (Spanned<String>, Ty)| p.1)));
            }
        }
        proof {
            assert(rest@.map_values(|p: (Spanned<String>, Ty)| p.1) =~= Seq::<Ty>::empty());
            assert(rparams@.map_values(|p: (VarId, Ty)| p.1) =~= ptys);
        }
        let ghost s1 = *self;
        proof {
            assert(rest@ =~= Seq::<(Spanned<String>, Ty)>::empty());
            assert(rparams@.map_values(|p: (VarId, Ty)| p.0) =~= ent.declare_params(ps0).0);
        }
        let rbody = self.resolve_stmt(body);
        let ghost s2 = *self;
        proof { lemma_grew_trans(old(self).ctx.diags@, s1.ctx.diags@, self.ctx.diags@); }
        let mut locals: Vec<Ty> = Vec::new();
        std::mem::swap(&mut locals, &mut self.current_locals);
        proof {
            assert(locals@ == s2.current_locals@);
            assert(self.added(old(self)) =~= s2.added(&s1));
        }
        Some(RFunction { id, module: module_id, name: name.to_owned(), params: rparams, ret, locals, body: rbody })
    }

    /// Resolves the defined functions of a module, in order, and records
    /// the module; `source` is its file, for the diagnostics.
    #[verifier::rlimit(100)]
    #[verifier::spinoff_prover]
    pub fn resolve_module(&mut self, module_id: ModuleId, source: Rc<SourceFile>, program: Program)
        requires
            old(self).next_var() + vars_in_items(program.items@) <= u32::MAX,
        ensures
            final(self).context().source == source,
            grew(final(self).context().diags@, old(self).context().diags@),
            final(self).next_func() == old(self).next_func(),
            final(self).next_var() <= old(self).next_var() + vars_in_items(program.items@),
            final(self).resolved().len() == old(self).resolved().len() + 1,
            final(self).resolved().take(old(self).resolved().len() as int) == old(self).resolved(),
            final(self).resolved().last().id == module_id,
            final(self).function_tables() == old(self).function_tables(),
            final(self).module_table() == old(self).module_table(),
            final(self).import_table() == old(self).import_table(),
            final(self).resolved().last().functions@.map_values(|f: RFunction| fn_signature(f))
                == defined_fns(old(self).function_tables(), module_id, program.items@),
            forall|k: int| 0 <= k < final(self).resolved().last().functions@.len()
                ==> (#[trigger] final(self).resolved().last().functions@[k]).module == module_id,
            final(self).resolved().last().functions@.map_values(|f: RFunction| fn_body(f))
                == old(self).module_bodies(module_id, program.items@).0,
            final(self).next_var() == old(self).module_bodies(module_id, program.items@).1,
            diags_view(final(self).context().diags@.subrange(
                old(self).context().diags@.len() as int,
                final(self).context().diags@.len() as int,
            )) == old(self).module_bodies(module_id, program.items@).2,
            items_ast_ok(program.items@) && final(self).context().diags@.len() == old(self).context().diags@.len() ==>
                forall|k: int| 0 <= k < final(self).resolved().last().functions@.len() ==>
                    stmt_ok((#[trigger] final(self).resolved().last().functions@[k]).body),
    {
        let ghost tt = Tables { current_module: module_id, scopes: Seq::empty(), ..self.tables() };
        let ghost nv0 = self.ids.next_var as nat;
        self.ctx.source = source;
        self.current_module = module_id;
        let ghost s0 = *self;
        let ghost d0 = self.ctx.diags@;
        let ghost m0 = self.modules@;
        let ghost items = program.items@;
        let mut rest = program.items;
        let mut functions: Vec<RFunction> = Vec::new();
        let ghost mut i: int = 0;
        proof {
            lemma_grew_refl(d0);
            lemma_added_none(*self);
            assert(items.subrange(0, items.len() as int) =~= items);
            assert(items.take(0) =~= Seq::<Spanned<ItemKind>>::empty());
            assert(functions@.map_values(|f: RFunction| fn_body(f)) =~= Seq::<(Seq<VarId>, Seq<TyModel>, RStmtM)>::empty());
        }
        while rest.len() > 0
            invariant
                tt.res_items(module_id, nv0, items) == (
                    functions@.map_values(|f: RFunction| fn_body(f)) + tt.res_items(module_id, self.ids.next_var as nat, rest@).0,
                    tt.res_items(module_id, self.ids.next_var as nat, rest@).1,
                    self.added(&s0) + tt.res_items(module_id, self.ids.next_var as nat, rest@).2,
                ),
                s0.ctx.diags@ == d0,
                self.module_names == old(self).module_names,
                self.module_imports == old(self).module_imports,
                tt.module_names == keyed(self.module_names@),
                tt.module_imports == imports_view(self.module_imports@),
                tt.functions == tables_view(self.functions@),
                tt.current_module == module_id,
                self.ctx.source == source,
                grew(self.ctx.diags@, d0),
                d0 == old(self).ctx.diags@,
                self.ids.next_func == old(self).ids.next_func,
                0 <= i <= items.len(),
                rest@ == items.subrange(i, items.len() as int),
                self.ids.next_var <= old(self).ids.next_var + vars_in_items(items.take(i)),
                old(self).ids.next_var + vars_in_items(items) <= u32::MAX,
                self.modules@ == m0,
                m0 == old(self).modules@,
                self.current_module == module_id,
                self.functions == old(self).functions,
                functions@.map_values(|f: RFunction| fn_signature(f))
                    == defined_fns(tables_view(old(self).functions@), module_id, items.take(i)),
                forall|k: int| 0 <= k < functions@.len() ==> (#[trigger] functions@[k]).module == module_id,
                items_ast_ok(items) && self.ctx.diags@.len() == d0.len() ==>
                    forall|k: int| 0 <= k < functions@.len() ==> stmt_ok((#[trigger] functions@[k]).body),
            decreases rest@.len(),
        {
            let ghost fs0 = functions@;
            let ghost r0 = rest@;
            let item = rest.remove(0);
            proof {
                assert(rest@ =~= r0.subrange(1, r0.len() as int));
                assert(rest@ =~= items.subrange(i + 1, items.len() as int));
                assert(item == items[i]);
                assert(items.take(i + 1).drop_last() =~= items.take(i));
                lemma_vars_in_items_prefix(items, i + 1);
            }
            let ghost nvb = self.ids.next_var as nat;
            let ghost sb = *self;
            let ghost fb0 = functions@.map_values(|f: RFunction| fn_body(f));
            proof {
                assert(r0[0] == item);
                lemma_grew_refl(self.ctx.diags@);
                lemma_added_none(*self);
            }
            match item.inner {
                ItemKind::FunctionDefined { name, params, ret, body } => {
                    let ghost sd = self.ctx.diags@;
                    let ghost b = body;
                    let ghost ps = params@;
                    proof { assert(self.function_entry() == tt.entry(nvb)); }
                    let f = self.resolve_function(module_id, name.inner.as_str(), params, ret, body);
                    proof {
                        lemma_grew_trans(d0, sd, self.ctx.diags@);
                        lemma_added_grew(s0, sb, *self);
                    }
                    if let Some(f) = f {
                        let ghost fbm = fn_body(f);
                        functions.push(f);
                        proof {
                            assert(functions@.map_values(|f: RFunction| fn_signature(f))
                                =~= fs0.map_values(|f: RFunction| fn_signature(f)).push(fn_signature(f)));
                            assert(functions@.map_values(|f: RFunction| fn_body(f)) =~= fb0.push(fbm));
                            let tail = tt.res_items(module_id, self.ids.next_var as nat, rest@);
                            assert(fb0.push(fbm) + tail.0 =~= fb0 + (seq![fbm] + tail.0));
                            assert(self.added(&s0) + tail.2 =~= sb.added(&s0) + (self.added(&sb) + tail.2));
                        }
                    } else {
                        proof {
                            assert(self.added(&s0) =~= sb.added(&s0));
                            assert(Seq::<(Seq<VarId>, Seq<TyModel>, RStmtM)>::empty() + tt.res_items(module_id, nvb, rest@).0
                                =~= tt.res_items(module_id, nvb, rest@).0);
                            assert(Seq::<DiagModel>::empty() + tt.res_items(module_id, nvb, rest@).2
                                =~= tt.res_items(module_id, nvb, rest@).2);
                        }
                    }
                }
                _ => {
                    proof {
                        assert(Seq::<(Seq<VarId>, Seq<TyModel>, RStmtM)>::empty() + tt.res_items(module_id, nvb, rest@).0
                            =~= tt.res_items(module_id, nvb, rest@).0);
                        assert(Seq::<DiagModel>::empty() + tt.res_items(module_id, nvb, rest@).2
                            =~= tt.res_items(module_id, nvb, rest@).2);
                    }
                }
            }
            proof {
                assert(items.take(i + 1).last() == items[i]);
                i = i + 1;
            }
        }
        proof {
            assert(items.take(items.len() as int) =~= items);
            assert(rest@ =~= Seq::<Spanned<ItemKind>>::empty());
            assert(functions@.map_values(|f: RFunction| fn_body(f)) =~= tt.res_items(module_id, nv0, items).0);
            assert(self.added(&s0) =~= tt.res_items(module_id, nv0, items).2);
        }
        self.modules.push(RModule { id: module_id, functions });
        proof { assert(self.modules@.take(m0.len() as int) =~= m0); }
    }
}

/// The variables of the first items are no more than those of all.
proof fn lemma_vars_in_items_prefix(items: Seq<Spanned<ItemKind>>, i: int)
    requires
        0 <= i <= items.len(),
    ensures
        vars_in_items(items.take(i)) <= vars_in_items(items),
    decreases items.len() - i,
{
    if i < items.len() {
        lemma_vars_in_items_prefix(items, i + 1);
        assert(items.take(i + 1).drop_last() =~= items.take(i));
    } else {
        assert(items.take(i) =~= items);
    }
}

} // verus!
