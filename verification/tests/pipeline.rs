//! The pipeline piece by piece: exact output text, the frame layout and
//! label boundaries, the alignment helper, the lexer, the type model,
//! and each diagnostic.

use minicc::codegen::align;
use minicc::compile;
use minicc::errors::CompileError;
use minicc::tokenize::{tokenize, TokenKind};
use minicc::types::{Type, TypeKind};

fn compile_ok(src: &str) -> String {
    match compile(src.to_string()) {
        Ok(text) => text,
        Err(e) => panic!("compile failed: {}", e.message()),
    }
}

fn compile_err(src: &str) -> CompileError {
    match compile(src.to_string()) {
        Ok(_) => panic!("compile unexpectedly succeeded"),
        Err(e) => e,
    }
}

#[test]
fn exact_output_for_return_zero() {
    let expected = ".intel_syntax noprefix\n.global main\nmain:\n  push rbp\n  mov rbp, rsp\n  sub rsp, 16\n  push 0\n  pop rax\n  mov rsp, rbp\n  pop rbp\n  ret\n  pop rax\n  mov rsp, rbp\n  pop rbp\n  ret\n";
    assert_eq!(compile_ok("int main(){ return 0; }"), expected);
}

#[test]
fn empty_body_is_prologue_and_epilogue_only() {
    let expected = ".intel_syntax noprefix\n.global main\nmain:\n  push rbp\n  mov rbp, rsp\n  sub rsp, 16\n  mov rsp, rbp\n  pop rbp\n  ret\n";
    assert_eq!(compile_ok("int main(){}"), expected);
}

#[test]
fn empty_source_emits_only_the_directive() {
    assert_eq!(compile_ok(""), ".intel_syntax noprefix\n");
}

#[test]
fn six_parameters_stored_in_declaration_order() {
    let text = compile_ok(
        "int pick(int a, int b, int c, int d, int e, int f){ return a; } int main(){ return 0; }",
    );
    let expected = "  mov [rbp-24], edi\n  mov [rbp-20], esi\n  mov [rbp-16], edx\n  mov [rbp-12], ecx\n  mov [rbp-8], r8d\n  mov [rbp-4], r9d\n";
    assert!(text.contains(expected), "parameter stores missing or misordered:\n{}", text);
}

#[test]
fn pointer_parameter_uses_wide_register() {
    let text = compile_ok("int deref(int *p){ return *p; } int main(){ int x; x=3; return deref(&x); }");
    assert!(text.contains("  mov [rbp-8], rdi\n"), "missing 8-byte store:\n{}", text);
}

#[test]
fn frame_size_is_aligned_total() {
    // five 4-byte locals: total 20, aligned up to 32
    let text = compile_ok("int main(){ int a; int b; int c; int d; int e; return 0; }");
    assert!(text.contains("  sub rsp, 32\n"), "wrong frame size:\n{}", text);
    // one pointer and one int: total 12, aligned up to 16
    let text2 = compile_ok("int main(){ int a; int *p; return 0; }");
    assert!(text2.contains("  sub rsp, 16\n"), "wrong frame size:\n{}", text2);
}

#[test]
fn layout_comments_in_reverse_declaration_order() {
    let text = compile_ok("int main(){ int a; int b; return 0; }");
    let a = text.find("# ----- a").expect("comment for a");
    let b = text.find("# ----- b").expect("comment for b");
    assert!(b < a, "comments not in reverse order:\n{}", text);
}

#[test]
fn labels_never_collide() {
    let src = "int main(){ int a; a=0; if(a) { if(a) a=1; else a=2; } else { if(a) a=3; else a=4; } while(a) if(a) a=a-1; else a=0; for(a=9;a;a=a-1) if(a) a=a-1; return a; }";
    let text = compile_ok(src);
    let mut defs: Vec<&str> = Vec::new();
    for line in text.lines() {
        if line.starts_with(".L.") && line.ends_with(':') {
            assert!(!defs.contains(&line), "label defined twice: {}", line);
            defs.push(line);
        }
    }
    assert!(defs.len() >= 8, "expected many labels, got {}", defs.len());
}

#[test]
fn label_suffixes_increase_monotonically() {
    let src = "int main(){ int a; a=0; if(a) a=1; if(a) a=2; if(a) a=3; return a; }";
    let text = compile_ok(src);
    let mut last: i64 = -1;
    for line in text.lines() {
        if line.starts_with(".L.end.") && line.ends_with(':') {
            let n: i64 = line[".L.end.".len()..line.len() - 1].parse().expect("suffix");
            assert!(n > last, "suffix did not increase: {}", line);
            last = n;
        }
    }
    assert_eq!(last, 2);
}

#[test]
fn while_labels_share_one_suffix() {
    let text = compile_ok("int main(){ int a; a=3; while(a) a=a-1; return a; }");
    assert!(text.contains(".L.begin.0:\n"));
    assert!(text.contains("  je .L.end.0\n"));
    assert!(text.contains("  jmp .L.begin.0\n"));
    assert!(text.contains(".L.end.0:\n"));
}

#[test]
fn if_else_labels_share_one_suffix() {
    let text = compile_ok("int main(){ if(1) return 1; else return 2; }");
    assert!(text.contains("  je .L.else.0\n"));
    assert!(text.contains("  jmp .L.end.0\n"));
    assert!(text.contains(".L.else.0:\n"));
    assert!(text.contains(".L.end.0:\n"));
}

#[test]
fn pointer_addition_scales_and_inverts() {
    // `&x + 2` scales the right side by 8 and, by this compiler's
    // deliberate pointer-algebra wart, emits a subtraction.
    let text = compile_ok("int main(){ int x; int *y; y=&x+2; return 0; }");
    assert!(text.contains("  push 2\n  push 8\n"), "missing scale operand:\n{}", text);
    assert!(text.contains("  imul rax, rdi\n"), "missing scaling multiply:\n{}", text);
    assert!(text.contains("  sub rax, rdi\n"), "missing inverted operator:\n{}", text);
}

#[test]
fn equality_into_relational_is_rejected() {
    // the equality production recurses into `mul` for its right side,
    // so a relational operator after `==` cannot be parsed
    let e = compile_err("int main(){ return 1==2<3; }");
    assert!(matches!(e, CompileError::ParseError(_)));
}

#[test]
fn alignment_examples() {
    assert_eq!(align(0, 16), 16);
    assert_eq!(align(1, 16), 16);
    assert_eq!(align(16, 16), 16);
    assert_eq!(align(17, 16), 32);
    assert_eq!(align(31, 16), 32);
    assert_eq!(align(32, 16), 32);
}

#[test]
fn tokenize_kinds_and_lexemes() {
    let toks = tokenize("a<=10;".to_string()).expect("tokenize");
    assert_eq!(toks.len(), 5);
    assert_eq!(toks[0].kind, TokenKind::TkIdent);
    assert_eq!(toks[0].op, "a");
    assert_eq!(toks[1].kind, TokenKind::TkReserved);
    assert_eq!(toks[1].op, "<=");
    assert_eq!(toks[2].kind, TokenKind::TkNum);
    assert_eq!(toks[2].val, 10);
    assert_eq!(toks[3].kind, TokenKind::TkReserved);
    assert_eq!(toks[3].op, ";");
    assert_eq!(toks[4].kind, TokenKind::TkEof);
    assert_eq!(toks[4].op, " ");
}

#[test]
fn tokenize_keywords_and_idents() {
    let toks = tokenize("returner return int_ int".to_string()).expect("tokenize");
    assert_eq!(toks[0].kind, TokenKind::TkIdent);
    assert_eq!(toks[0].op, "returner");
    assert_eq!(toks[1].kind, TokenKind::TkReserved);
    assert_eq!(toks[1].op, "return");
    assert_eq!(toks[2].kind, TokenKind::TkIdent);
    assert_eq!(toks[2].op, "int_");
    assert_eq!(toks[3].kind, TokenKind::TkReserved);
    assert_eq!(toks[3].op, "int");
}

#[test]
fn tokenize_two_char_operators_first() {
    let toks = tokenize("== != <= >= < > = !".to_string()).expect("tokenize");
    let ops: Vec<&str> = toks[..8].iter().map(|t| t.op.as_str()).collect();
    assert_eq!(ops, vec!["==", "!=", "<=", ">=", "<", ">", "=", "!"]);
}

#[test]
fn tokenize_rejects_double_bang() {
    assert!(tokenize("1!!2".to_string()).is_err());
}

#[test]
fn tokenize_rejects_unknown_character() {
    assert!(tokenize("a @ b".to_string()).is_err());
}

#[test]
fn tokenize_rejects_oversized_literal() {
    assert!(tokenize("4294967296".to_string()).is_err());
    assert!(tokenize("4294967295".to_string()).is_ok());
}

#[test]
fn lex_error_is_fatal() {
    let e = compile_err("int main(){ return 1 @ 2; }");
    assert!(matches!(e, CompileError::LexError(_)));
}

#[test]
fn unknown_local_is_rejected() {
    let e = compile_err("int main(){ return z; }");
    match e {
        CompileError::ParseError(msg) => {
            assert_eq!(msg, "Does not match any local variable");
        }
        _ => panic!("expected a parse error"),
    }
}

#[test]
fn missing_semicolon_is_rejected() {
    let e = compile_err("int main(){ return 1 }");
    match e {
        CompileError::ParseError(msg) => {
            assert!(msg.contains("expected ;"), "unexpected message: {}", msg);
        }
        _ => panic!("expected a parse error"),
    }
}

#[test]
fn assignment_to_non_lvalue_is_rejected() {
    let e = compile_err("int main(){ 1=2; return 0; }");
    match e {
        CompileError::SemanticError(msg) => {
            assert_eq!(msg, "The left value of the assignment is not a variable.");
        }
        _ => panic!("expected a semantic error"),
    }
}

#[test]
fn dereferencing_an_integer_is_rejected() {
    let e = compile_err("int main(){ int x; x=1; return *x; }");
    assert!(matches!(e, CompileError::ParseError(_)));
}

#[test]
fn seven_parameters_are_rejected() {
    let e = compile_err(
        "int f(int a,int b,int c,int d,int e,int f,int g){ return 0; } int main(){ return 0; }",
    );
    assert!(matches!(e, CompileError::SemanticError(_)));
}

#[test]
fn seven_arguments_are_rejected() {
    let e = compile_err("int f(){ return 0; } int main(){ return f(1,2,3,4,5,6,7); }");
    assert!(matches!(e, CompileError::SemanticError(_)));
}

#[test]
fn type_constructors() {
    let t = Type::new_int();
    assert_eq!(t.kind, TypeKind::TyInt);
    assert_eq!(t.size, 4);
    assert!(t.is_integer());

    let p = Type::new_int().pointer_to();
    assert_eq!(p.kind, TypeKind::TyPtr);
    assert_eq!(p.size, 8);
    assert!(!p.is_integer());
    assert_eq!(p.ptr_to.as_ref().expect("base").kind, TypeKind::TyInt);

    let a = Type::new_int().array_of(3);
    assert_eq!(a.kind, TypeKind::TyArr);
    assert_eq!(a.size, 12);
    assert_eq!(a.size_array, 3);
    assert!(!a.is_integer());
}

#[test]
fn declarations_flow_through_statement_stream() {
    // a declaration in statement position emits a harmless reference
    let text = compile_ok("int main(){ int a; a=5; return a; }");
    assert!(text.contains("  sub rsp, 16\n"));
}

#[test]
fn missing_identifier_is_rejected() {
    let e = compile_err("int 5(){ return 0; }");
    match e {
        CompileError::ParseError(msg) => {
            assert!(msg.contains("expected identifier"), "unexpected message: {}", msg);
        }
        _ => panic!("expected a parse error"),
    }
}

#[test]
fn tokenize_rejects_equals_bang() {
    assert!(tokenize("a=!b".to_string()).is_err());
}

#[test]
fn num_token_lexeme_is_empty() {
    let toks = tokenize("42".to_string()).expect("tokenize");
    assert_eq!(toks[0].kind, TokenKind::TkNum);
    assert_eq!(toks[0].val, 42);
    assert_eq!(toks[0].op, "");
}

#[test]
fn call_arguments_parse_at_additive_level() {
    // an unparenthesized assignment cannot appear in an argument
    let e = compile_err("int f(int a){ return a; } int main(){ int x; return f(x=1); }");
    assert!(matches!(e, CompileError::ParseError(_)));
    // parenthesized, it can
    let ok = compile("int f(int a){ return a; } int main(){ int x; return f((x=1)); }".to_string());
    assert!(ok.is_ok());
}
