//! Code generation: lowers one tree at a time into a backend
//! intermediate representation held as plain data — a module of
//! functions whose bodies are blocks of instructions over numbered
//! value handles — while managing the local scope, function lookup and
//! reuse, arity checking, and cleanup after a failed definition.

use vstd::prelude::*;
use crate::lexer::Operator;
use crate::parser::{lemma_view_expr_seq, ExprAST, Prototype, SpecExpr, SpecProto};

verus! {

/// A failure during code generation, each carrying the offending name;
/// an arity mismatch also carries the argument count that was given.
#[derive(Debug, PartialEq)]
pub enum CodeGenError {
    VariableNotFound(String),
    FunctionNotFound(String),
    InvalidArgumentsSize(String, usize),
}

/// Mathematical image of a `CodeGenError`.
#[verifier::ext_equal]
pub enum SpecCodeGenError {
    VariableNotFound(Seq<char>),
    FunctionNotFound(Seq<char>),
    InvalidArgumentsSize(Seq<char>, usize),
}

impl DeepView for CodeGenError {
    type V = SpecCodeGenError;

    open spec fn deep_view(&self) -> SpecCodeGenError {
        match self {
            CodeGenError::VariableNotFound(n) => SpecCodeGenError::VariableNotFound(n@),
            CodeGenError::FunctionNotFound(n) => SpecCodeGenError::FunctionNotFound(n@),
            CodeGenError::InvalidArgumentsSize(n, c) => SpecCodeGenError::InvalidArgumentsSize(
                n@,
                *c,
            ),
        }
    }
}

/// A backend value handle: an index into the module's value table.
/// Handles are compared by identity — equal handles mean the same value.
#[derive(Clone, Copy, Debug, PartialEq, Eq, Structural)]
pub struct Value {
    pub id: usize,
}

/// What a value handle stands for: a numeric constant kept as its
/// source text, a named function parameter, a whole function, or the
/// result of an instruction.
#[derive(Debug, PartialEq)]
pub enum ValueDef {
    Num(String),
    Param(String),
    Fun(String),
    Temp,
}

/// Mathematical image of a `ValueDef`.
#[verifier::ext_equal]
pub enum SpecValueDef {
    Num(Seq<char>),
    Param(Seq<char>),
    Fun(Seq<char>),
    Temp,
}

impl DeepView for ValueDef {
    type V = SpecValueDef;

    open spec fn deep_view(&self) -> SpecValueDef {
        match self {
            ValueDef::Num(t) => SpecValueDef::Num(t@),
            ValueDef::Param(n) => SpecValueDef::Param(n@),
            ValueDef::Fun(n) => SpecValueDef::Fun(n@),
            ValueDef::Temp => SpecValueDef::Temp,
        }
    }
}

/// One emitted instruction. `Bin` with `LessThan` stands for the fused
/// ordered-less-than comparison converted back to the scalar type; a
/// call names its callee; `Ret` returns a value.
#[derive(Debug, PartialEq)]
pub enum Inst {
    Bin { op: Operator, dst: usize, lhs: usize, rhs: usize },
    Call { dst: usize, callee: String, args: Vec<usize> },
    Ret { dst: usize, value: usize },
}

/// Mathematical image of an `Inst`.
#[verifier::ext_equal]
pub enum SpecInst {
    Bin { op: Operator, dst: usize, lhs: usize, rhs: usize },
    Call { dst: usize, callee: Seq<char>, args: Seq<usize> },
    Ret { dst: usize, value: usize },
}

impl DeepView for Inst {
    type V = SpecInst;

    open spec fn deep_view(&self) -> SpecInst {
        match self {
            Inst::Bin { op, dst, lhs, rhs } => SpecInst::Bin {
                op: *op,
                dst: *dst,
                lhs: *lhs,
                rhs: *rhs,
            },
            Inst::Call { dst, callee, args } => SpecInst::Call {
                dst: *dst,
                callee: callee@,
                args: args.deep_view(),
            },
            Inst::Ret { dst, value } => SpecInst::Ret { dst: *dst, value: *value },
        }
    }
}

/// A backend function: its name, its parameter names, the value
/// handles of those parameters, its own handle, and its blocks of
/// instructions — empty until a definition fills them.
#[derive(Debug, PartialEq)]
pub struct Function {
    pub name: String,
    pub params: Vec<String>,
    pub param_vals: Vec<usize>,
    pub val: usize,
    pub blocks: Vec<Vec<Inst>>,
}

/// Mathematical image of a `Function`.
#[verifier::ext_equal]
pub struct SpecFunction {
    pub name: Seq<char>,
    pub params: Seq<Seq<char>>,
    pub param_vals: Seq<usize>,
    pub val: usize,
    pub blocks: Seq<Seq<SpecInst>>,
}

impl DeepView for Function {
    type V = SpecFunction;

    open spec fn deep_view(&self) -> SpecFunction {
        SpecFunction {
            name: self.name@,
            params: self.params.deep_view(),
            param_vals: self.param_vals.deep_view(),
            val: self.val,
            blocks: self.blocks.deep_view(),
        }
    }
}

/// A reference to a function: its index in the module's function list,
/// valid until the list changes.
#[derive(Clone, Copy, Debug, PartialEq, Eq, Structural)]
pub struct FunctionRef {
    pub idx: usize,
}

/// The backend module: a name, the functions declared so far, and the
/// table saying what each value handle stands for.
#[derive(Debug, PartialEq)]
pub struct Module {
    pub name: String,
    pub functions: Vec<Function>,
    pub defs: Vec<ValueDef>,
}

/// Mathematical image of a `Module`.
#[verifier::ext_equal]
pub struct SpecModule {
    pub name: Seq<char>,
    pub functions: Seq<SpecFunction>,
    pub defs: Seq<SpecValueDef>,
}

impl DeepView for Module {
    type V = SpecModule;

    open spec fn deep_view(&self) -> SpecModule {
        SpecModule {
            name: self.name@,
            functions: self.functions.deep_view(),
            defs: self.defs.deep_view(),
        }
    }
}

/// Mathematical image of an `IRGenerator`: the module, the local
/// scope, where the next instruction lands, and the scratch list for
/// instructions built before any insert point was set.
#[verifier::ext_equal]
pub struct SpecGenerator {
    pub module: SpecModule,
    pub scope: Seq<(Seq<char>, usize)>,
    pub target: Option<usize>,
    pub top: Seq<SpecInst>,
}

/// The index of the first function with the given name, if any.
pub open spec fn spec_find_function(funs: Seq<SpecFunction>, name: Seq<char>) -> Option<int>
    decreases funs.len(),
{
    if funs.len() == 0 {
        None
    } else if funs[0].name == name {
        Some(0)
    } else {
        match spec_find_function(funs.drop_first(), name) {
            Some(i) => Some(i + 1),
            None => None,
        }
    }
}

pub proof fn lemma_find_function(funs: Seq<SpecFunction>, name: Seq<char>)
    ensures
        match spec_find_function(funs, name) {
            Some(i) => 0 <= i < funs.len() && funs[i].name == name && forall|j: int|
                0 <= j < i ==> funs[j].name != name,
            None => forall|j: int| 0 <= j < funs.len() ==> funs[j].name != name,
        },
    decreases funs.len(),
{
    if funs.len() > 0 && funs[0].name != name {
        lemma_find_function(funs.drop_first(), name);
        assert forall|j: int| 1 <= j < funs.len() implies funs.drop_first()[j - 1] == #[trigger]
            funs[j] by {}
    }
}

/// The value bound to `name` in the scope, latest binding first —
/// a later binding of the same name shadows an earlier one.
pub open spec fn spec_lookup_scope(scope: Seq<(Seq<char>, usize)>, name: Seq<char>) -> Option<
    usize,
>
    decreases scope.len(),
{
    if scope.len() == 0 {
        None
    } else if scope.last().0 == name {
        Some(scope.last().1)
    } else {
        spec_lookup_scope(scope.drop_last(), name)
    }
}

/// The scope that binds each parameter name to its value handle;
/// bound in order, so a repeated name ends up bound to its last handle.
pub open spec fn spec_param_scope(params: Seq<Seq<char>>, vals: Seq<usize>) -> Seq<
    (Seq<char>, usize),
> {
    Seq::new(params.len(), |i: int| (params[i], vals[i]))
}

/// Appends `inst` wherever the builder stands: the newest block of the
/// target function, or the scratch list when no valid insert point is
/// set.
pub open spec fn spec_emit(g: SpecGenerator, inst: SpecInst) -> SpecGenerator {
    match g.target {
        Some(i) => if i < g.module.functions.len() && g.module.functions[i as int].blocks.len()
            > 0 {
            let f = g.module.functions[i as int];
            let bi = f.blocks.len() - 1;
            let f2 = SpecFunction { blocks: f.blocks.update(bi, f.blocks[bi].push(inst)), ..f };
            SpecGenerator {
                module: SpecModule { functions: g.module.functions.update(i as int, f2), ..g.module },
                ..g
            }
        } else {
            SpecGenerator { top: g.top.push(inst), ..g }
        },
        None => SpecGenerator { top: g.top.push(inst), ..g },
    }
}

/// Allocates a fresh value handle described by `d`.
pub open spec fn spec_with_def(g: SpecGenerator, d: SpecValueDef) -> SpecGenerator {
    SpecGenerator { module: SpecModule { defs: g.module.defs.push(d), ..g.module }, ..g }
}

/// Declares a function: a handle for the function itself, one handle
/// per parameter carrying its name, and an empty body. A name clash is
/// allowed; lookup keeps finding the first declaration.
pub open spec fn spec_add_function(m: SpecModule, name: Seq<char>, params: Seq<Seq<char>>)
    -> SpecModule {
    let val = m.defs.len() as usize;
    let param_vals = Seq::new(params.len(), |j: int| (m.defs.len() + 1 + j) as usize);
    let defs2 = m.defs.push(SpecValueDef::Fun(name)) + Seq::new(
        params.len(),
        |j: int| SpecValueDef::Param(params[j]),
    );
    SpecModule {
        functions: m.functions.push(
            SpecFunction { name, params, param_vals, val, blocks: Seq::empty() },
        ),
        defs: defs2,
        ..m
    }
}

/// `gen_proto` as a function of the state: the new state and the index
/// of the function just declared.
pub open spec fn spec_gen_proto(g: SpecGenerator, p: SpecProto) -> (SpecGenerator, int) {
    let m2 = spec_add_function(g.module, p.name, p.args);
    (SpecGenerator { module: m2, ..g }, g.module.functions.len() as int)
}

/// `gen` as a function of the state and the tree: the new state, and
/// the handle of the produced value or the error. Left to right, one
/// variant at a time, exactly as the code generator works.
pub open spec fn spec_gen(g: SpecGenerator, e: SpecExpr) -> (SpecGenerator, Result<
    usize,
    SpecCodeGenError,
>)
    decreases e, 1int,
{
    match e {
        SpecExpr::Number(text) => {
            let id = g.module.defs.len() as usize;
            (spec_with_def(g, SpecValueDef::Num(text)), Ok(id))
        },
        SpecExpr::Variable(name) => match spec_lookup_scope(g.scope, name) {
            Some(id) => (g, Ok(id)),
            None => (g, Err(SpecCodeGenError::VariableNotFound(name))),
        },
        SpecExpr::BinaryOp { op, lhs, rhs } => {
            let (g1, r1) = spec_gen(g, *lhs);
            match r1 {
                Err(e1) => (g1, Err(e1)),
                Ok(l) => {
                    let (g2, r2) = spec_gen(g1, *rhs);
                    match r2 {
                        Err(e2) => (g2, Err(e2)),
                        Ok(rr) => {
                            let id = g2.module.defs.len() as usize;
                            let g3 = spec_with_def(g2, SpecValueDef::Temp);
                            (
                                spec_emit(g3, SpecInst::Bin { op, dst: id, lhs: l, rhs: rr }),
                                Ok(id),
                            )
                        },
                    }
                },
            }
        },
        SpecExpr::Call { callee, args } => {
            match spec_find_function(g.module.functions, callee) {
                None => (g, Err(SpecCodeGenError::FunctionNotFound(callee))),
                Some(i) => if g.module.functions[i].params.len() != args.len() {
                    (
                        g,
                        Err(
                            SpecCodeGenError::InvalidArgumentsSize(
                                callee,
                                args.len() as usize,
                            ),
                        ),
                    )
                } else {
                    let (g1, r) = spec_gen_seq(g, args);
                    match r {
                        Err(e1) => (g1, Err(e1)),
                        Ok(ids) => {
                            let id = g1.module.defs.len() as usize;
                            let g2 = spec_with_def(g1, SpecValueDef::Temp);
                            (
                                spec_emit(g2, SpecInst::Call { dst: id, callee, args: ids }),
                                Ok(id),
                            )
                        },
                    }
                },
            }
        },
        SpecExpr::Prototype(p) => {
            let (g1, i) = spec_gen_proto(g, p);
            (g1, Ok(g1.module.functions[i].val))
        },
        SpecExpr::Function { proto, body } => {
            let (g1, i) = match spec_find_function(g.module.functions, proto.name) {
                Some(i) => (g, i),
                None => spec_gen_proto(g, proto),
            };
            let f = g1.module.functions[i];
            let f2 = SpecFunction { blocks: f.blocks.push(Seq::empty()), ..f };
            let g2 = SpecGenerator {
                module: SpecModule {
                    functions: g1.module.functions.update(i, f2),
                    ..g1.module
                },
                scope: spec_param_scope(f.params, f.param_vals),
                target: Some(i as usize),
                ..g1
            };
            let (g3, r) = spec_gen(g2, *body);
            match r {
                Ok(v) => {
                    let rid = g3.module.defs.len() as usize;
                    let g4 = spec_emit(
                        spec_with_def(g3, SpecValueDef::Temp),
                        SpecInst::Ret { dst: rid, value: v },
                    );
                    let out = if i < g4.module.functions.len() {
                        g4.module.functions[i].val
                    } else {
                        0
                    };
                    (g4, Ok(out))
                },
                Err(e1) => {
                    let m2 = if i < g3.module.functions.len() {
                        SpecModule { functions: g3.module.functions.remove(i), ..g3.module }
                    } else {
                        g3.module
                    };
                    (SpecGenerator { module: m2, target: None, ..g3 }, Err(e1))
                },
            }
        },
    }
}

/// `gen` over a sequence of argument expressions, left to right; the
/// states of the ones already generated stay even when a later one
/// fails.
pub open spec fn spec_gen_seq(g: SpecGenerator, args: Seq<SpecExpr>) -> (SpecGenerator, Result<
    Seq<usize>,
    SpecCodeGenError,
>)
    decreases args, 0int,
{
    if args.len() == 0 {
        (g, Ok(Seq::empty()))
    } else {
        let (g1, r) = spec_gen(g, args[0]);
        match r {
            Err(e1) => (g1, Err(e1)),
            Ok(id) => {
                let (g2, r2) = spec_gen_seq(g1, args.drop_first());
                match r2 {
                    Err(e2) => (g2, Err(e2)),
                    Ok(ids) => (g2, Ok(seq![id] + ids)),
                }
            },
        }
    }
}

/// The state of a fresh generator: an empty module and no insert point.
pub open spec fn spec_init() -> SpecGenerator {
    SpecGenerator {
        module: SpecModule { name: "kaleidoscope"@, functions: Seq::empty(), defs: Seq::empty() },
        scope: Seq::empty(),
        target: None,
        top: Seq::empty(),
    }
}

impl Function {
    /// The function's declared arity.
    pub fn num_args(&self) -> (n: usize)
        ensures
            n == self.deep_view().params.len(),
    {
        proof {
            assert(self.deep_view().params.len() == self.params@.len());
        }
        self.params.len()
    }
}

/// A function body is well formed when it is a single block that ends
/// with its only return instruction.
pub open spec fn spec_fun_verified(f: SpecFunction) -> bool {
    &&& f.blocks.len() == 1
    &&& f.blocks[0].len() > 0
    &&& f.blocks[0].last() is Ret
    &&& forall|k: int| 0 <= k < f.blocks[0].len() - 1 ==> !(#[trigger] f.blocks[0][k] is Ret)
}

impl Function {
    /// The verifier: reports whether the body is well formed. A
    /// redefined function has a second entry block and fails this
    /// check, as the original backend's verifier would complain.
    pub fn verify(&self) -> (r: bool)
        ensures
            r == spec_fun_verified(self.deep_view()),
    {
        proof {
            assert(self.deep_view().blocks.len() == self.blocks@.len());
        }
        if self.blocks.len() != 1 {
            return false;
        }
        let b = &self.blocks[0];
        proof {
            assert(self.deep_view().blocks[0] == b.deep_view());
            assert(b.deep_view().len() == b@.len());
        }
        let n = b.len();
        if n == 0 {
            return false;
        }
        let last_is_ret = matches!(&b[n - 1], Inst::Ret { .. });
        proof {
            assert(b.deep_view().last() == b@[n - 1].deep_view());
            assert(last_is_ret == b@[n - 1] matches Inst::Ret { .. });
            assert(last_is_ret == b.deep_view().last() is Ret);
        }
        if !last_is_ret {
            return false;
        }
        let mut k: usize = 0;
        while k < n - 1
            invariant
                n == b@.len(),
                n == b.deep_view().len(),
                n >= 1,
                k <= n - 1,
                self.deep_view().blocks.len() == 1,
                self.deep_view().blocks[0] == b.deep_view(),
                b.deep_view().last() is Ret,
                forall|j: int| 0 <= j < k ==> !(#[trigger] b.deep_view()[j] is Ret),
            decreases n - 1 - k,
        {
            if matches!(&b[k], Inst::Ret { .. }) {
                proof {
                    assert(b.deep_view()[k as int] == b@[k as int].deep_view());
                    assert(self.deep_view().blocks[0][k as int] is Ret);
                    assert(!spec_fun_verified(self.deep_view()));
                }
                return false;
            }
            proof {
                assert(b.deep_view()[k as int] == b@[k as int].deep_view());
            }
            k = k + 1;
        }
        proof {
            assert(b.deep_view().last() == b@[n - 1].deep_view());
        }
        true
    }
}

impl Module {
    /// The first function of the module with the given name, or
    /// `FunctionNotFound` when no function of that name was ever
    /// declared.
    pub fn get_function(&self, name: &str) -> (r: Result<FunctionRef, CodeGenError>)
        ensures
            self.deep_view().functions.len() <= usize::MAX,
            match spec_find_function(self.deep_view().functions, name@) {
                Some(i) => r == Ok::<FunctionRef, CodeGenError>((FunctionRef { idx: i as usize })),
                None => r matches Err(e) && e.deep_view() == SpecCodeGenError::FunctionNotFound(
                    name@,
                ),
            },
    {
        let ghost funs = self.deep_view().functions;
        let n = self.functions.len();
        proof {
            assert(funs.len() == self.functions@.len());
            assert(funs.skip(0) =~= funs);
        }
        let mut i: usize = 0;
        while i < n
            invariant
                n == self.functions@.len(),
                n == funs.len(),
                funs == self.deep_view().functions,
                i <= n,
                spec_find_function(funs, name@) == (match spec_find_function(
                    funs.skip(i as int),
                    name@,
                ) {
                    Some(k) => Some(k + i),
                    None => None::<int>,
                }),
            decreases n - i,
        {
            proof {
                assert(funs.skip(i as int)[0] == funs[i as int]);
                assert(funs[i as int] == self.functions@[i as int].deep_view());
            }
            if crate::lexer::str_eq(self.functions[i].name.as_str(), name) {
                return Ok(FunctionRef { idx: i });
            }
            proof {
                assert(funs.skip(i as int).drop_first() =~= funs.skip(i + 1));
            }
            i = i + 1;
        }
        Err(CodeGenError::FunctionNotFound(name.to_owned()))
    }

    /// Declares a function with the given name and parameter names, as
    /// `spec_add_function` describes it: fresh handles for the function
    /// and each parameter, and an empty body.
    pub fn add_function(&mut self, name: String, params: Vec<String>) -> (r: FunctionRef)
        ensures
            final(self).deep_view() == spec_add_function(
                old(self).deep_view(),
                name@,
                params.deep_view(),
            ),
            r.idx == old(self).deep_view().functions.len(),
    {
        let ghost m0 = self.deep_view();
        let idx = self.functions.len();
        let val = self.defs.len();
        self.defs.push(ValueDef::Fun(name.clone()));
        let mut param_vals: Vec<usize> = Vec::new();
        let n = params.len();
        let mut j: usize = 0;
        while j < n
            invariant
                n == params@.len(),
                j <= n,
                val == m0.defs.len(),
                self.name@ == m0.name,
                self.functions.deep_view() == m0.functions,
                self.defs@.len() == m0.defs.len() + 1 + j,
                self.defs.deep_view() =~= m0.defs.push(SpecValueDef::Fun(name@)) + Seq::new(
                    j as nat,
                    |k: int| SpecValueDef::Param(params.deep_view()[k]),
                ),
                param_vals.deep_view() =~= Seq::new(
                    j as nat,
                    |k: int| (m0.defs.len() + 1 + k) as usize,
                ),
            decreases n - j,
        {
            let ghost dprev = self.defs.deep_view();
            let ghost pprev = param_vals.deep_view();
            param_vals.push(self.defs.len());
            self.defs.push(ValueDef::Param(params[j].clone()));
            j = j + 1;
            proof {
                assert(params.deep_view()[j - 1] == params@[j - 1]@);
                assert(self.defs.deep_view() =~= dprev.push(
                    SpecValueDef::Param(params.deep_view()[j - 1]),
                ));
                assert(dprev.push(SpecValueDef::Param(params.deep_view()[j - 1])) =~= m0.defs.push(
                    SpecValueDef::Fun(name@),
                ) + Seq::new(j as nat, |k: int| SpecValueDef::Param(params.deep_view()[k])));
                assert(param_vals.deep_view() =~= pprev.push((m0.defs.len() + j) as usize));
                assert(pprev.push((m0.defs.len() + j) as usize) =~= Seq::new(
                    j as nat,
                    |k: int| (m0.defs.len() + 1 + k) as usize,
                ));
            }
        }
        let ghost pv = param_vals.deep_view();
        let f = Function { name, params, param_vals, val, blocks: Vec::new() };
        proof {
            assert(f.deep_view().blocks =~= Seq::<Seq<SpecInst>>::empty());
        }
        self.functions.push(f);
        proof {
            assert(self.functions.deep_view() =~= m0.functions.push(f.deep_view()));
            assert(self.deep_view() =~~= spec_add_function(m0, name@, params.deep_view()));
        }
        FunctionRef { idx }
    }

    /// Removes the function entirely from the module, so that no later
    /// lookup can find it. Used only to clean up a failed definition.
    pub fn delete_function(&mut self, f: FunctionRef)
        requires
            f.idx < old(self).functions@.len(),
        ensures
            final(self).deep_view() == (SpecModule {
                functions: old(self).deep_view().functions.remove(f.idx as int),
                ..old(self).deep_view()
            }),
    {
        let ghost m0 = self.deep_view();
        self.functions.remove(f.idx);
        proof {
            assert(self.functions.deep_view() =~= m0.functions.remove(f.idx as int));
            assert(self.deep_view() =~~= (SpecModule {
                functions: m0.functions.remove(f.idx as int),
                ..m0
            }));
        }
    }
}

/// The code generator: the module built so far, the local scope of the
/// function body being generated, and the builder's insert point.
pub struct IRGenerator {
    pub module: Module,
    named_values: Vec<(String, usize)>,
    target: Option<usize>,
    top: Vec<Inst>,
}

impl View for IRGenerator {
    type V = SpecGenerator;

    closed spec fn view(&self) -> SpecGenerator {
        SpecGenerator {
            module: self.module.deep_view(),
            scope: self.named_values.deep_view(),
            target: self.target,
            top: self.top.deep_view(),
        }
    }
}

impl IRGenerator {
    /// The insert point, when set, names a function that exists and
    /// already has a block to hold instructions, and every function
    /// has one value handle per parameter.
    pub open spec fn wf(&self) -> bool {
        &&& (match self@.target {
            Some(i) => i < self@.module.functions.len() && self@.module.functions[
                i as int].blocks.len() > 0,
            None => true,
        })
        &&& (forall|i: int|
            0 <= i < self@.module.functions.len() ==> (#[trigger] self@.module.functions[
                i]).params.len() == self@.module.functions[i].param_vals.len())
    }

    /// A fresh generator: an empty module, no scope, no insert point.
    pub fn new() -> (g: IRGenerator)
        ensures
            g.wf(),
            g@ == spec_init(),
    {
        let g = IRGenerator {
            module: Module {
                name: String::from_str("kaleidoscope"),
                functions: Vec::new(),
                defs: Vec::new(),
            },
            named_values: Vec::new(),
            target: None,
            top: Vec::new(),
        };
        proof {
            assert(g@ =~~= spec_init());
        }
        g
    }

    /// Appends `inst` at the builder's insert point, as `spec_emit`
    /// describes it.
    fn emit(&mut self, inst: Inst)
        requires
            old(self).wf(),
        ensures
            final(self).wf(),
            final(self)@ == spec_emit(old(self)@, inst.deep_view()),
    {
        let ghost g0 = self@;
        let ghost iv = inst.deep_view();
        match self.target {
            Some(i) => {
                let ghost f0 = g0.module.functions[i as int];
                let f = &mut self.module.functions[i];
                let nb = f.blocks.len();
                let blk = &mut f.blocks[nb - 1];
                blk.push(inst);
                proof {
                    assert(self.module.functions@[i as int].blocks@[nb - 1].deep_view()
                        =~= f0.blocks[f0.blocks.len() - 1].push(iv));
                    assert(self.module.functions@[i as int].deep_view().blocks
                        =~~= f0.blocks.update(
                        f0.blocks.len() - 1,
                        f0.blocks[f0.blocks.len() - 1].push(iv),
                    ));
                    assert(self.module.functions@[i as int].deep_view() =~~= (SpecFunction {
                        blocks: f0.blocks.update(
                            f0.blocks.len() - 1,
                            f0.blocks[f0.blocks.len() - 1].push(iv),
                        ),
                        ..f0
                    }));
                    assert(self.module.functions.deep_view() =~~= g0.module.functions.update(
                        i as int,
                        (SpecFunction {
                            blocks: f0.blocks.update(
                                f0.blocks.len() - 1,
                                f0.blocks[f0.blocks.len() - 1].push(iv),
                            ),
                            ..f0
                        }),
                    ));
                    assert(self@ =~~= spec_emit(g0, iv));
                }
            },
            None => {
                self.top.push(inst);
                proof {
                    assert(self.top.deep_view() =~= g0.top.push(iv));
                    assert(self@ =~~= spec_emit(g0, iv));
                }
            },
        }
    }

    /// The value bound to `name` in the current scope, a later binding
    /// shadowing an earlier one, as `spec_lookup_scope` describes it.
    fn lookup(&self, name: &String) -> (r: Option<usize>)
        ensures
            r == spec_lookup_scope(self@.scope, name@),
    {
        let ghost scope = self@.scope;
        proof {
            assert(scope.len() == self.named_values@.len());
            assert(scope.take(scope.len() as int) =~= scope);
        }
        let mut i: usize = self.named_values.len();
        while i > 0
            invariant
                i <= self.named_values@.len(),
                scope == self@.scope,
                scope.len() == self.named_values@.len(),
                spec_lookup_scope(scope, name@) == spec_lookup_scope(
                    scope.take(i as int),
                    name@,
                ),
            decreases i,
        {
            proof {
                assert(scope[i - 1] == self.named_values@[i - 1].deep_view());
                assert(scope.take(i as int).last() == scope[i - 1]);
                assert(scope.take(i as int).drop_last() =~= scope.take(i - 1));
            }
            if crate::lexer::str_eq(self.named_values[i - 1].0.as_str(), name.as_str()) {
                return Some(self.named_values[i - 1].1);
            }
            i = i - 1;
        }
        proof {
            assert(scope.take(0) =~= Seq::<(Seq<char>, usize)>::empty());
        }
        None
    }

    /// Declares the prototype's function in the module, as
    /// `spec_gen_proto` describes it: this never fails.
    pub fn gen_proto(&mut self, proto: &Prototype) -> (r: Result<FunctionRef, CodeGenError>)
        requires
            old(self).wf(),
        ensures
            final(self).wf(),
            old(self)@.module.functions.len() <= usize::MAX,
            ({
                let (g2, i) = spec_gen_proto(old(self)@, proto.deep_view());
                final(self)@ == g2 && r == Ok::<FunctionRef, CodeGenError>(
                    (FunctionRef { idx: i as usize }),
                )
            }),
    {
        let ghost g0 = self@;
        proof {
            assert(self@.module.functions.len() == self.module.functions@.len());
        }
        let _n_funs: usize = self.module.functions.len();
        let name = proto.name.clone();
        let mut params: Vec<String> = Vec::new();
        let n = proto.args.len();
        let mut j: usize = 0;
        proof {
            assert(proto.deep_view().args.len() == proto.args@.len());
        }
        while j < n
            invariant
                n == proto.args@.len(),
                j <= n,
                params.deep_view() =~= proto.deep_view().args.take(j as int),
            decreases n - j,
        {
            let ghost aprev = params.deep_view();
            params.push(proto.args[j].clone());
            j = j + 1;
            proof {
                assert(proto.args@[j - 1]@ == proto.deep_view().args[j - 1]);
                assert(params.deep_view() =~= aprev.push(proto.deep_view().args[j - 1]));
                assert(aprev.push(proto.deep_view().args[j - 1]) =~= proto.deep_view().args.take(
                    j as int,
                ));
            }
        }
        proof {
            assert(params.deep_view() =~= proto.deep_view().args);
        }
        let fr = self.module.add_function(name, params);
        proof {
            assert(self@ =~~= spec_gen_proto(g0, proto.deep_view()).0);
            assert(self@.module.functions.len() == g0.module.functions.len() + 1);
            assert forall|k: int| 0 <= k < self@.module.functions.len() implies (
            #[trigger] self@.module.functions[k]).params.len() == self@.module.functions[
            k].param_vals.len() by {
                if k < g0.module.functions.len() {
                    assert(self@.module.functions[k] == g0.module.functions[k]);
                }
            }
        }
        Ok(fr)
    }
}

impl IRGenerator {
    /// Lowers one tree into the module, as `spec_gen` describes it: the
    /// handle of the produced value, or the error, with the state
    /// advanced exactly as far as generation got.
    pub fn gen(&mut self, ast: &ExprAST) -> (r: Result<Value, CodeGenError>)
        requires
            old(self).wf(),
        ensures
            final(self).wf(),
            ({
                let (g2, r2) = spec_gen(old(self)@, ast.deep_view());
                final(self)@ == g2 && (match r {
                    Ok(v) => r2 == Ok::<usize, SpecCodeGenError>(v.id),
                    Err(e) => r2 == Err::<usize, SpecCodeGenError>(e.deep_view()),
                })
            }),
        decreases *ast,
    {
        let ghost g0 = self@;
        let ghost ev = ast.deep_view();
        match ast {
            ExprAST::Number(text) => {
                let id = self.module.defs.len();
                self.module.defs.push(ValueDef::Num(text.clone()));
                proof {
                    assert(self.module.defs.deep_view() =~= g0.module.defs.push(
                        SpecValueDef::Num(text@),
                    ));
                    assert(self@ =~~= spec_with_def(g0, SpecValueDef::Num(text@)));
                }
                Ok(Value { id })
            },
            ExprAST::Variable(name) => {
                match self.lookup(name) {
                    Some(id) => Ok(Value { id }),
                    None => Err(CodeGenError::VariableNotFound(name.clone())),
                }
            },
            ExprAST::BinaryOp { op, lhs, rhs } => {
                let l = match self.gen(&**lhs) {
                    Ok(v) => v,
                    Err(e) => {
                        return Err(e);
                    },
                };
                let rr = match self.gen(&**rhs) {
                    Ok(v) => v,
                    Err(e) => {
                        return Err(e);
                    },
                };
                let id = self.module.defs.len();
                let ghost g2s = self@;
                self.module.defs.push(ValueDef::Temp);
                proof {
                    assert(self.module.defs.deep_view() =~= g2s.module.defs.push(
                        SpecValueDef::Temp,
                    ));
                    assert(self@ =~~= spec_with_def(g2s, SpecValueDef::Temp));
                }
                self.emit(Inst::Bin { op: *op, dst: id, lhs: l.id, rhs: rr.id });
                Ok(Value { id })
            },
            ExprAST::Call { callee, args } => {
                let fr = match self.module.get_function(callee.as_str()) {
                    Ok(fr) => fr,
                    Err(e) => {
                        return Err(e);
                    },
                };
                proof {
                    lemma_find_function(g0.module.functions, callee@);
                    lemma_view_expr_seq(args@);
                }
                let arity = self.module.functions[fr.idx].num_args();
                let n_args = args.len();
                if arity != n_args {
                    return Err(CodeGenError::InvalidArgumentsSize(callee.clone(), n_args));
                }
                let ids = match self.gen_args(args) {
                    Ok(ids) => ids,
                    Err(e) => {
                        return Err(e);
                    },
                };
                let id = self.module.defs.len();
                let ghost g2s = self@;
                self.module.defs.push(ValueDef::Temp);
                proof {
                    assert(self.module.defs.deep_view() =~= g2s.module.defs.push(
                        SpecValueDef::Temp,
                    ));
                    assert(self@ =~~= spec_with_def(g2s, SpecValueDef::Temp));
                }
                self.emit(Inst::Call { dst: id, callee: callee.clone(), args: ids });
                Ok(Value { id })
            },
            ExprAST::Prototype(p) => {
                let fr = match self.gen_proto(p) {
                    Ok(fr) => fr,
                    Err(_) => unreached(),
                };
                proof {
                    assert(self@.module.functions[fr.idx as int].val == spec_gen(
                        g0,
                        ev,
                    ).0.module.functions[spec_gen_proto(g0, p.deep_view()).1].val);
                }
                Ok(Value { id: self.module.functions[fr.idx].val })
            },
            ExprAST::Function { proto, body } => {
                let found = self.module.get_function(proto.name.as_str());
                proof {
                    lemma_find_function(g0.module.functions, proto.deep_view().name);
                }
                let fr = match found {
                    Ok(fr) => fr,
                    Err(_) => {
                        match self.gen_proto(proto) {
                            Ok(fr2) => fr2,
                            Err(_) => unreached(),
                        }
                    },
                };
                let i = fr.idx;
                let ghost g1s = self@;
                let ghost fv = self@.module.functions[i as int];
                proof {
                    assert(i < g1s.module.functions.len());
                }
                let f = &mut self.module.functions[i];
                f.blocks.push(Vec::new());
                proof {
                    assert(self.module.functions@[i as int].blocks@.last().deep_view() =~= Seq::<
                        SpecInst,
                    >::empty());
                    assert(self.module.functions@[i as int].deep_view().blocks
                        =~~= fv.blocks.push(Seq::empty()));
                    assert(self.module.functions@[i as int].deep_view() =~~= (SpecFunction {
                        blocks: fv.blocks.push(Seq::empty()),
                        ..fv
                    }));
                    assert(self.module.functions.deep_view() =~~= g1s.module.functions.update(
                        i as int,
                        (SpecFunction { blocks: fv.blocks.push(Seq::empty()), ..fv }),
                    ));
                }
                self.target = Some(i);
                let ghost m2s = self@.module;
                let ghost tops = self@.top;
                self.named_values = Vec::new();
                let np = self.module.functions[i].params.len();
                proof {
                    assert(fv.params.len() == self.module.functions@[i as int].params@.len());
                    assert(fv.params == self@.module.functions[i as int].params);
                    assert(fv.param_vals == self@.module.functions[i as int].param_vals);
                }
                let mut j: usize = 0;
                while j < np
                    invariant
                        j <= np,
                        i < self.module.functions@.len(),
                        np == self.module.functions@[i as int].params@.len(),
                        np == fv.params.len(),
                        fv.params.len() == fv.param_vals.len(),
                        fv.params == self@.module.functions[i as int].params,
                        fv.param_vals == self@.module.functions[i as int].param_vals,
                        self@.module == m2s,
                        self@.target == Some(i),
                        self@.top == tops,
                        self.named_values.deep_view() =~= spec_param_scope(
                            fv.params,
                            fv.param_vals,
                        ).take(j as int),
                    decreases np - j,
                {
                    let ghost sprev = self.named_values.deep_view();
                    let nm = self.module.functions[i].params[j].clone();
                    let pv = self.module.functions[i].param_vals[j];
                    self.named_values.push((nm, pv));
                    j = j + 1;
                    proof {
                        assert(self.named_values.deep_view() =~= sprev.push(
                            (fv.params[j - 1], fv.param_vals[j - 1]),
                        ));
                        assert(sprev.push((fv.params[j - 1], fv.param_vals[j - 1]))
                            =~= spec_param_scope(fv.params, fv.param_vals).take(j as int));
                    }
                }
                proof {
                    assert(self.named_values.deep_view() =~= spec_param_scope(
                        fv.params,
                        fv.param_vals,
                    ));
                    assert(self@ =~~= (SpecGenerator {
                        module: SpecModule {
                            functions: g1s.module.functions.update(
                                i as int,
                                (SpecFunction { blocks: fv.blocks.push(Seq::empty()), ..fv }),
                            ),
                            ..g1s.module
                        },
                        scope: spec_param_scope(fv.params, fv.param_vals),
                        target: Some(i),
                        ..g1s
                    }));
                    assert forall|k: int| 0 <= k < self@.module.functions.len() implies (
                    #[trigger] self@.module.functions[k]).params.len() == self@.module.functions[
                    k].param_vals.len() by {
                        if k != i {
                            assert(self@.module.functions[k] == g1s.module.functions[k]);
                        }
                    }
                }
                match self.gen(&**body) {
                    Ok(v) => {
                        let rid = self.module.defs.len();
                        let ghost g3s = self@;
                        self.module.defs.push(ValueDef::Temp);
                        proof {
                            assert(self.module.defs.deep_view() =~= g3s.module.defs.push(
                                SpecValueDef::Temp,
                            ));
                            assert(self@ =~~= spec_with_def(g3s, SpecValueDef::Temp));
                        }
                        self.emit(Inst::Ret { dst: rid, value: v.id });
                        if i < self.module.functions.len() {
                            let _well_formed: bool = self.module.functions[i].verify();
                            Ok(Value { id: self.module.functions[i].val })
                        } else {
                            Ok(Value { id: 0 })
                        }
                    },
                    Err(e) => {
                        let ghost g3s = self@;
                        if i < self.module.functions.len() {
                            self.module.delete_function(FunctionRef { idx: i });
                        }
                        self.target = None;
                        proof {
                            if i < g3s.module.functions.len() {
                                assert(self@ =~~= (SpecGenerator {
                                    module: SpecModule {
                                        functions: g3s.module.functions.remove(i as int),
                                        ..g3s.module
                                    },
                                    target: None,
                                    ..g3s
                                }));
                            } else {
                                assert(self@ =~~= (SpecGenerator {
                                    module: g3s.module,
                                    target: None,
                                    ..g3s
                                }));
                            }
                        }
                        Err(e)
                    },
                }
            },
        }
    }

    /// Lowers an argument list left to right, as `spec_gen_seq`
    /// describes it.
    fn gen_args(&mut self, args: &Vec<ExprAST>) -> (r: Result<Vec<usize>, CodeGenError>)
        requires
            old(self).wf(),
        ensures
            final(self).wf(),
            ({
                let (g2, r2) = spec_gen_seq(old(self)@, crate::parser::view_expr_seq(args@));
                final(self)@ == g2 && (match r {
                    Ok(ids) => r2 == Ok::<Seq<usize>, SpecCodeGenError>(ids.deep_view()),
                    Err(e) => r2 == Err::<Seq<usize>, SpecCodeGenError>(e.deep_view()),
                })
            }),
        decreases args@,
    {
        let ghost argsv = crate::parser::view_expr_seq(args@);
        proof {
            lemma_view_expr_seq(args@);
            assert(argsv.skip(0) =~= argsv);
        }
        let mut ids: Vec<usize> = Vec::new();
        let n = args.len();
        let mut j: usize = 0;
        while j < n
            invariant
                n == args@.len(),
                j <= n,
                self.wf(),
                argsv == crate::parser::view_expr_seq(args@),
                argsv.len() == n,
                forall|t: int|
                    0 <= t < n ==> argsv[t] == crate::parser::view_expr(#[trigger] args@[t]),
                ({
                    let (g2, r2) = spec_gen_seq(old(self)@, argsv);
                    match spec_gen_seq(self@, argsv.skip(j as int)) {
                        (gf, Ok(rest)) => g2 == gf && r2 == Ok::<Seq<usize>, SpecCodeGenError>(
                            ids.deep_view() + rest,
                        ),
                        (gf, Err(e)) => g2 == gf && r2 == Err::<Seq<usize>, SpecCodeGenError>(e),
                    }
                }),
            decreases n - j,
        {
            let ghost g_pre = self@;
            let ghost pre_ids = ids.deep_view();
            proof {
                assert(decreases_to!(args@ => args@[j as int]));
                assert(argsv.skip(j as int)[0] == argsv[j as int]);
                assert(argsv.skip(j as int).drop_first() =~= argsv.skip(j + 1));
            }
            match self.gen(&args[j]) {
                Ok(v) => {
                    ids.push(v.id);
                    j = j + 1;
                    proof {
                        assert(ids.deep_view() =~= pre_ids.push(v.id));
                        match spec_gen_seq(self@, argsv.skip(j as int)) {
                            (gf, Ok(rest)) => {
                                assert(pre_ids + (seq![v.id] + rest) =~= ids.deep_view() + rest);
                            },
                            (gf, Err(e)) => {},
                        }
                    }
                },
                Err(e) => {
                    return Err(e);
                },
            }
        }
        proof {
            assert(argsv.skip(n as int) =~= Seq::<SpecExpr>::empty());
            assert(ids.deep_view() + Seq::<usize>::empty() =~= ids.deep_view());
        }
        Ok(ids)
    }
}

/// A plain expression: one built of numbers, variables, binary
/// operators and calls alone — exactly what the expression grammar can
/// produce, with no nested definition or declaration.
pub open spec fn is_plain_expr(e: SpecExpr) -> bool
    decreases e, 1int,
{
    match e {
        SpecExpr::Number(_) => true,
        SpecExpr::Variable(_) => true,
        SpecExpr::BinaryOp { lhs, rhs, .. } => is_plain_expr(*lhs) && is_plain_expr(*rhs),
        SpecExpr::Call { args, .. } => all_plain_exprs(args),
        SpecExpr::Prototype(_) => false,
        SpecExpr::Function { .. } => false,
    }
}

pub open spec fn all_plain_exprs(args: Seq<SpecExpr>) -> bool
    decreases args, 0int,
{
    if args.len() == 0 {
        true
    } else {
        is_plain_expr(args[0]) && all_plain_exprs(args.drop_first())
    }
}

/// Two function lists that declare the same functions: same length,
/// and each function keeps its name, parameters, parameter handles and
/// own handle — only the instruction blocks may differ.
pub open spec fn same_signatures(a: Seq<SpecFunction>, b: Seq<SpecFunction>) -> bool {
    &&& a.len() == b.len()
    &&& forall|i: int|
        0 <= i < a.len() ==> {
            &&& (#[trigger] b[i]).name == a[i].name
            &&& b[i].params == a[i].params
            &&& b[i].param_vals == a[i].param_vals
            &&& b[i].val == a[i].val
        }
}

proof fn lemma_emit_signatures(g: SpecGenerator, inst: SpecInst)
    ensures
        same_signatures(g.module.functions, spec_emit(g, inst).module.functions),
        spec_emit(g, inst).scope == g.scope,
        spec_emit(g, inst).target == g.target,
{
}

/// Generating a plain expression may emit instructions but never adds,
/// removes or reshapes a function, and leaves scope and insert point
/// alone.
pub proof fn lemma_plain_gen_signatures(g: SpecGenerator, e: SpecExpr)
    requires
        is_plain_expr(e),
    ensures
        same_signatures(g.module.functions, spec_gen(g, e).0.module.functions),
        spec_gen(g, e).0.scope == g.scope,
        spec_gen(g, e).0.target == g.target,
    decreases e, 1int,
{
    match e {
        SpecExpr::BinaryOp { op, lhs, rhs } => {
            lemma_plain_gen_signatures(g, *lhs);
            let (g1, r1) = spec_gen(g, *lhs);
            if r1 is Ok {
                lemma_plain_gen_signatures(g1, *rhs);
                let (g2, r2) = spec_gen(g1, *rhs);
                if r2 is Ok {
                    let g3 = spec_with_def(g2, SpecValueDef::Temp);
                    lemma_emit_signatures(
                        g3,
                        (SpecInst::Bin {
                            op,
                            dst: g2.module.defs.len() as usize,
                            lhs: r1->Ok_0,
                            rhs: r2->Ok_0,
                        }),
                    );
                }
            }
        },
        SpecExpr::Call { callee, args } => {
            match spec_find_function(g.module.functions, callee) {
                None => {},
                Some(i) => {
                    if g.module.functions[i].params.len() == args.len() {
                        lemma_plain_gen_seq_signatures(g, args);
                        let (g1, r) = spec_gen_seq(g, args);
                        if r is Ok {
                            let g2 = spec_with_def(g1, SpecValueDef::Temp);
                            lemma_emit_signatures(
                                g2,
                                (SpecInst::Call {
                                    dst: g1.module.defs.len() as usize,
                                    callee,
                                    args: r->Ok_0,
                                }),
                            );
                        }
                    }
                },
            }
        },
        _ => {},
    }
}

proof fn lemma_plain_gen_seq_signatures(g: SpecGenerator, args: Seq<SpecExpr>)
    requires
        all_plain_exprs(args),
    ensures
        same_signatures(g.module.functions, spec_gen_seq(g, args).0.module.functions),
        spec_gen_seq(g, args).0.scope == g.scope,
        spec_gen_seq(g, args).0.target == g.target,
    decreases args, 0int,
{
    if args.len() > 0 {
        lemma_plain_gen_signatures(g, args[0]);
        let (g1, r) = spec_gen(g, args[0]);
        if r is Ok {
            lemma_plain_gen_seq_signatures(g1, args.drop_first());
        }
    }
}

/// A call to a name never declared fails with `FunctionNotFound`
/// carrying exactly that name, and leaves the state unchanged.
pub proof fn lemma_call_unknown_function(
    g: SpecGenerator,
    callee: Seq<char>,
    args: Seq<SpecExpr>,
)
    requires
        spec_find_function(g.module.functions, callee) is None,
    ensures
        spec_gen(g, (SpecExpr::Call { callee, args })) == (
            g,
            Err::<usize, SpecCodeGenError>(SpecCodeGenError::FunctionNotFound(callee)),
        ),
{
}

/// A call to a declared function with the wrong number of arguments
/// fails with `InvalidArgumentsSize` carrying the name and the count
/// that was given, and leaves the state unchanged.
pub proof fn lemma_call_wrong_arity(
    g: SpecGenerator,
    callee: Seq<char>,
    args: Seq<SpecExpr>,
    i: int,
)
    requires
        spec_find_function(g.module.functions, callee) == Some(i),
        g.module.functions[i].params.len() != args.len(),
    ensures
        spec_gen(g, (SpecExpr::Call { callee, args })) == (
            g,
            Err::<usize, SpecCodeGenError>(
                SpecCodeGenError::InvalidArgumentsSize(callee, args.len() as usize),
            ),
        ),
{
}

/// Defining a function whose name already has a backend function
/// reuses it: no new function is created. On success the function
/// count is unchanged and the produced handle is the existing
/// function's own; on failure the reused function is deleted.
pub proof fn lemma_redefinition_reuses_function(
    g: SpecGenerator,
    proto: SpecProto,
    body: Box<SpecExpr>,
    i: int,
)
    requires
        spec_find_function(g.module.functions, proto.name) == Some(i),
        is_plain_expr(*body),
    ensures
        ({
            let (g2, r) = spec_gen(g, (SpecExpr::Function { proto, body }));
            &&& (r is Ok ==> g2.module.functions.len() == g.module.functions.len() && r == Ok::<
                usize,
                SpecCodeGenError,
            >(g.module.functions[i].val))
            &&& (r is Err ==> g2.module.functions.len() == g.module.functions.len() - 1)
        }),
{
    lemma_find_function(g.module.functions, proto.name);
    let f = g.module.functions[i];
    let f2 = SpecFunction { blocks: f.blocks.push(Seq::empty()), ..f };
    let gb = SpecGenerator {
        module: SpecModule { functions: g.module.functions.update(i, f2), ..g.module },
        scope: spec_param_scope(f.params, f.param_vals),
        target: Some(i as usize),
        ..g
    };
    lemma_plain_gen_signatures(gb, *body);
    let (g3, r) = spec_gen(gb, *body);
    if r is Ok {
        let rid = g3.module.defs.len() as usize;
        lemma_emit_signatures(
            spec_with_def(g3, SpecValueDef::Temp),
            (SpecInst::Ret { dst: rid, value: r->Ok_0 }),
        );
    }
}

proof fn lemma_find_none(funs: Seq<SpecFunction>, name: Seq<char>)
    requires
        forall|j: int| 0 <= j < funs.len() ==> (#[trigger] funs[j]).name != name,
    ensures
        spec_find_function(funs, name) is None,
    decreases funs.len(),
{
    if funs.len() > 0 {
        assert(funs[0].name != name);
        assert forall|j: int| 0 <= j < funs.drop_first().len() implies (#[trigger] funs.drop_first(
        )[j]).name != name by {
            assert(funs.drop_first()[j] == funs[j + 1]);
        }
        lemma_find_none(funs.drop_first(), name);
    }
}

/// When a definition's body fails to generate, the function built for
/// it no longer exists afterwards, and a subsequent call to that name
/// fails with `FunctionNotFound`. This needs the name to be declared
/// at most once beforehand: after `extern f(a); extern f(a);` a second,
/// unreachable function of the same name would survive the deletion.
pub proof fn lemma_failed_definition_is_deleted(
    g: SpecGenerator,
    proto: SpecProto,
    body: Box<SpecExpr>,
)
    requires
        is_plain_expr(*body),
        forall|j: int, k: int|
            0 <= j < k < g.module.functions.len() ==> !((#[trigger] g.module.functions[j]).name
                == proto.name && (#[trigger] g.module.functions[k]).name == proto.name),
        spec_gen(g, (SpecExpr::Function { proto, body })).1 is Err,
    ensures
        spec_find_function(
            spec_gen(g, (SpecExpr::Function { proto, body })).0.module.functions,
            proto.name,
        ) is None,
        forall|args: Seq<SpecExpr>|
            #[trigger] spec_gen(
                spec_gen(g, (SpecExpr::Function { proto, body })).0,
                (SpecExpr::Call { callee: proto.name, args }),
            ).1 == Err::<usize, SpecCodeGenError>(
                SpecCodeGenError::FunctionNotFound(proto.name),
            ),
{
    lemma_find_function(g.module.functions, proto.name);
    let (g1, i) = match spec_find_function(g.module.functions, proto.name) {
        Some(i) => (g, i),
        None => spec_gen_proto(g, proto),
    };
    let f = g1.module.functions[i];
    let f2 = SpecFunction { blocks: f.blocks.push(Seq::empty()), ..f };
    let gb = SpecGenerator {
        module: SpecModule { functions: g1.module.functions.update(i, f2), ..g1.module },
        scope: spec_param_scope(f.params, f.param_vals),
        target: Some(i as usize),
        ..g1
    };
    lemma_plain_gen_signatures(gb, *body);
    let (g3, r) = spec_gen(gb, *body);
    let out = spec_gen(g, (SpecExpr::Function { proto, body })).0;
    assert(out.module.functions =~= g3.module.functions.remove(i));
    assert forall|j: int| 0 <= j < out.module.functions.len() implies (
    #[trigger] out.module.functions[j]).name != proto.name by {
        if j < i {
            assert(g3.module.functions.remove(i)[j] == g3.module.functions[j]);
            assert(g3.module.functions[j].name == gb.module.functions[j].name);
        } else {
            assert(g3.module.functions.remove(i)[j] == g3.module.functions[j + 1]);
            assert(g3.module.functions[j + 1].name == gb.module.functions[j + 1].name);
        }
    }
    lemma_find_none(out.module.functions, proto.name);
    assert forall|args: Seq<SpecExpr>|
        #[trigger] spec_gen(out, (SpecExpr::Call { callee: proto.name, args })).1 == Err::<
            usize,
            SpecCodeGenError,
        >(SpecCodeGenError::FunctionNotFound(proto.name)) by {
        lemma_call_unknown_function(out, proto.name, args);
    }
}

/// Generation is deterministic: the outcome — new state, emitted
/// instructions and produced handle or error — is a function of the
/// generator's state and the tree alone. Generating structurally
/// identical trees from identical states, in particular twice from a
/// fresh generator, therefore yields structurally identical
/// instruction sequences.
pub proof fn lemma_generation_deterministic(
    g1: SpecGenerator,
    g2: SpecGenerator,
    e1: SpecExpr,
    e2: SpecExpr,
)
    requires
        g1 == g2,
        e1 == e2,
    ensures
        spec_gen(g1, e1) == spec_gen(g2, e2),
{
}

} // verus!
