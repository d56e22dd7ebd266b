use kaleidoscope::ir::{CodeGenError, IRGenerator, Inst, ValueDef};
use kaleidoscope::lexer::{Lexer, Operator};
use kaleidoscope::parser::{ExprAST, Parser};

fn ast_of(input: &str) -> ExprAST {
    let tokens = Lexer::new(input.chars().collect()).tokenize().unwrap();
    Parser::new(tokens).parse().unwrap().0
}

#[test]
fn call_to_undeclared_name_fails() {
    let mut g = IRGenerator::new();
    let r = g.gen(&ast_of("foo(1);"));
    assert_eq!(r, Err(CodeGenError::FunctionNotFound("foo".to_string())));
}

#[test]
fn call_with_wrong_arity_fails_with_given_count() {
    let mut g = IRGenerator::new();
    g.gen(&ast_of("extern f(a b);")).unwrap();
    let r = g.gen(&ast_of("f(1);"));
    assert_eq!(
        r,
        Err(CodeGenError::InvalidArgumentsSize("f".to_string(), 1))
    );
    let r3 = g.gen(&ast_of("f(1,2,3);"));
    assert_eq!(
        r3,
        Err(CodeGenError::InvalidArgumentsSize("f".to_string(), 3))
    );
}

#[test]
fn unbound_variable_fails() {
    let mut g = IRGenerator::new();
    let r = g.gen(&ast_of("def f(x) y;"));
    assert_eq!(r, Err(CodeGenError::VariableNotFound("y".to_string())));
}

#[test]
fn definition_emits_instruction_and_return() {
    let mut g = IRGenerator::new();
    let v = g.gen(&ast_of("def foo(a b) a+b;")).unwrap();
    assert_eq!(g.module.functions.len(), 1);
    let f = &g.module.functions[0];
    assert_eq!(f.name, "foo");
    assert_eq!(f.params, vec!["a".to_string(), "b".to_string()]);
    assert_eq!(f.num_args(), 2);
    // handles: 0 the function, 1 and 2 its parameters
    assert_eq!(f.val, 0);
    assert_eq!(v.id, 0);
    assert_eq!(f.param_vals, vec![1, 2]);
    assert_eq!(g.module.defs[0], ValueDef::Fun("foo".to_string()));
    assert_eq!(g.module.defs[1], ValueDef::Param("a".to_string()));
    assert_eq!(g.module.defs[2], ValueDef::Param("b".to_string()));
    assert_eq!(
        f.blocks,
        vec![vec![
            Inst::Bin {
                op: Operator::Plus,
                dst: 3,
                lhs: 1,
                rhs: 2
            },
            Inst::Ret { dst: 4, value: 3 },
        ]]
    );
    assert!(f.verify());
}

#[test]
fn redefinition_reuses_the_existing_function() {
    let mut g = IRGenerator::new();
    let v1 = g.gen(&ast_of("def f(x) x;")).unwrap();
    assert_eq!(g.module.functions.len(), 1);
    let v2 = g.gen(&ast_of("def f(x) x+1;")).unwrap();
    assert_eq!(g.module.functions.len(), 1);
    assert_eq!(v1, v2);
    // the reused function now carries a second entry block, which the
    // verifier rejects, exactly as the original backend would complain
    assert_eq!(g.module.functions[0].blocks.len(), 2);
    assert!(!g.module.functions[0].verify());
}

#[test]
fn failed_body_deletes_the_function() {
    let mut g = IRGenerator::new();
    let r = g.gen(&ast_of("def f(x) y;"));
    assert_eq!(r, Err(CodeGenError::VariableNotFound("y".to_string())));
    assert_eq!(g.module.functions.len(), 0);
    let call = g.gen(&ast_of("f(1);"));
    assert_eq!(call, Err(CodeGenError::FunctionNotFound("f".to_string())));
}

#[test]
fn failed_redefinition_deletes_even_the_old_function() {
    let mut g = IRGenerator::new();
    g.gen(&ast_of("def f(x) x;")).unwrap();
    let r = g.gen(&ast_of("def f(x) nope;"));
    assert_eq!(r, Err(CodeGenError::VariableNotFound("nope".to_string())));
    let call = g.gen(&ast_of("f(1);"));
    assert_eq!(call, Err(CodeGenError::FunctionNotFound("f".to_string())));
}

#[test]
fn generation_is_deterministic_across_fresh_generators() {
    let statements = ["extern g(a);", "def f(x) x<2*g(x);", "def h(y) f(y)+1;"];
    let mut g1 = IRGenerator::new();
    let mut g2 = IRGenerator::new();
    for s in statements {
        let r1 = g1.gen(&ast_of(s));
        let r2 = g2.gen(&ast_of(s));
        assert_eq!(r1, r2);
    }
    assert_eq!(g1.module, g2.module);
    assert_eq!(
        g1.module.functions[1].blocks,
        g2.module.functions[1].blocks
    );
}

#[test]
fn extern_then_definition_binds_parameters_by_backend_names() {
    let mut g = IRGenerator::new();
    g.gen(&ast_of("extern f(a);")).unwrap();
    assert_eq!(g.module.functions.len(), 1);
    // the definition reuses the declared function, whose parameter is
    // named "a"; the body must use that name
    let ok = g.gen(&ast_of("def f(a) a+1;"));
    assert!(ok.is_ok());
    assert_eq!(g.module.functions.len(), 1);
}

#[test]
fn comparison_emits_the_fused_instruction() {
    let mut g = IRGenerator::new();
    g.gen(&ast_of("def lt(a b) a<b;")).unwrap();
    let f = &g.module.functions[0];
    assert_eq!(
        f.blocks[0][0],
        Inst::Bin {
            op: Operator::LessThan,
            dst: 3,
            lhs: 1,
            rhs: 2
        }
    );
}

#[test]
fn call_arguments_are_generated_left_to_right() {
    let mut g = IRGenerator::new();
    g.gen(&ast_of("extern f(a b);")).unwrap();
    g.gen(&ast_of("def use(x) f(x, x*2);")).unwrap();
    let f = &g.module.functions[1];
    // handles: 3 the function "use", 4 its parameter x, 5 the constant 2,
    // 6 the product, 7 the call, 8 the return
    assert_eq!(g.module.defs[5], ValueDef::Num("2".to_string()));
    assert_eq!(
        f.blocks[0],
        vec![
            Inst::Bin {
                op: Operator::Times,
                dst: 6,
                lhs: 4,
                rhs: 5
            },
            Inst::Call {
                dst: 7,
                callee: "f".to_string(),
                args: vec![4, 6]
            },
            Inst::Ret { dst: 8, value: 7 },
        ]
    );
}

#[test]
fn duplicate_parameter_name_is_bound_to_its_last_handle() {
    let mut g = IRGenerator::new();
    g.gen(&ast_of("def f(x x) x;")).unwrap();
    let f = &g.module.functions[0];
    // parameters hold handles 1 and 2; the body's x resolves to the last
    assert_eq!(f.blocks[0], vec![Inst::Ret { dst: 3, value: 2 }]);
}
