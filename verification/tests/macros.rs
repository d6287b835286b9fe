use frontend_core::error::CompileError;
use frontend_core::macros::{expand, Delim, MacroDef, Matcher, Piece, Rule, Token};
use frontend_core::value::{constant_of, Value};
use frontend_core::types::Prim;

const CONCAT: u32 = 1;
const FILE: u32 = 2;
const PICK: u32 = 3;
const SWAP: u32 = 4;
const X: u32 = 50;
const Y: u32 = 51;
const TEST2: u32 = 60;
const TEST3: u32 = 61;
const COMMA: u8 = 44;

fn empty_block() -> Vec<Piece> {
    vec![Piece::Token(Token::Open(Delim::Brace)), Piece::Token(Token::Close(Delim::Brace))]
}

/// `macro_rules! name { () => {{}}; }`
fn marker(name: u32) -> MacroDef {
    MacroDef { name, rules: vec![Rule { pattern: vec![], expansion: empty_block() }] }
}

/// Three rules, of which the first and the third take one integer.
fn pick() -> MacroDef {
    MacroDef {
        name: PICK,
        rules: vec![
            Rule { pattern: vec![Matcher::Exact(Token::Int(1))], expansion: vec![Piece::Token(Token::Int(10))] },
            Rule { pattern: vec![], expansion: vec![Piece::Token(Token::Int(20))] },
            Rule { pattern: vec![Matcher::Bind(X)], expansion: vec![Piece::Token(Token::Int(30))] },
            Rule { pattern: vec![Matcher::Exact(Token::Int(1))], expansion: vec![Piece::Token(Token::Int(40))] },
        ],
    }
}

/// `($x, $y) => { $y $x $x }`
fn swap() -> MacroDef {
    MacroDef {
        name: SWAP,
        rules: vec![Rule {
            pattern: vec![Matcher::Bind(X), Matcher::Exact(Token::Punct(COMMA)), Matcher::Bind(Y)],
            expansion: vec![Piece::Var(Y), Piece::Token(Token::Punct(COMMA)), Piece::Var(X), Piece::Var(X)],
        }],
    }
}

#[test]
fn the_first_matching_rule_wins() {
    let defs = vec![pick()];
    assert_eq!(expand(&defs, PICK, &vec![Token::Int(1)]), Ok(vec![Token::Int(10)]));
    assert_eq!(expand(&defs, PICK, &vec![]), Ok(vec![Token::Int(20)]));
    assert_eq!(expand(&defs, PICK, &vec![Token::Int(2)]), Ok(vec![Token::Int(30)]));
}

#[test]
fn the_order_of_the_rules_decides() {
    let mut def = pick();
    def.rules.swap(0, 3);
    let defs = vec![def];
    assert_eq!(expand(&defs, PICK, &vec![Token::Int(1)]), Ok(vec![Token::Int(40)]));
    let mut def = pick();
    def.rules.swap(0, 2);
    let defs = vec![def];
    assert_eq!(expand(&defs, PICK, &vec![Token::Int(1)]), Ok(vec![Token::Int(30)]));
}

#[test]
fn an_invocation_that_no_rule_matches_is_an_error() {
    let defs = vec![pick(), swap()];
    assert_eq!(
        expand(&defs, PICK, &vec![Token::Int(1), Token::Int(1)]),
        Err(CompileError::NoMatchingRule)
    );
    assert_eq!(expand(&defs, SWAP, &vec![]), Err(CompileError::NoMatchingRule));
    assert_eq!(
        expand(&defs, SWAP, &vec![Token::Int(1), Token::Punct(COMMA + 1), Token::Int(2)]),
        Err(CompileError::NoMatchingRule)
    );
    let no_rules = vec![MacroDef { name: PICK, rules: vec![] }];
    assert_eq!(expand(&no_rules, PICK, &vec![]), Err(CompileError::NoMatchingRule));
}

#[test]
fn an_undeclared_macro_is_unknown() {
    let defs = vec![pick()];
    assert_eq!(expand(&defs, SWAP, &vec![]), Err(CompileError::UnknownMacro));
    assert_eq!(expand(&vec![], PICK, &vec![]), Err(CompileError::UnknownMacro));
}

#[test]
fn the_last_declaration_of_a_name_counts() {
    let later = MacroDef {
        name: PICK,
        rules: vec![Rule { pattern: vec![], expansion: vec![Piece::Token(Token::Int(99))] }],
    };
    let defs = vec![pick(), swap(), later];
    assert_eq!(expand(&defs, PICK, &vec![]), Ok(vec![Token::Int(99)]));
    assert_eq!(expand(&defs, PICK, &vec![Token::Int(1)]), Err(CompileError::NoMatchingRule));
}

#[test]
fn variables_are_replaced_by_the_tokens_they_stand_for() {
    let defs = vec![swap()];
    let got = expand(&defs, SWAP, &vec![Token::Int(1), Token::Punct(COMMA), Token::Str(TEST2)]);
    assert_eq!(
        got,
        Ok(vec![Token::Str(TEST2), Token::Punct(COMMA), Token::Int(1), Token::Int(1)])
    );
}

#[test]
fn a_variable_bound_twice_stands_for_the_first_token() {
    let def = MacroDef {
        name: SWAP,
        rules: vec![Rule {
            pattern: vec![Matcher::Bind(X), Matcher::Bind(X)],
            expansion: vec![Piece::Var(X)],
        }],
    };
    assert_eq!(def.expand(&vec![Token::Int(1), Token::Int(2)]), Ok(vec![Token::Int(1)]));
    assert_eq!(def.rules[0].binder(X), Some(0));
    assert_eq!(def.rules[0].binder(Y), None);
}

#[test]
fn a_variable_that_is_not_bound_is_left_as_a_name() {
    let def = MacroDef {
        name: SWAP,
        rules: vec![Rule { pattern: vec![Matcher::Bind(X)], expansion: vec![Piece::Var(Y), Piece::Var(X)] }],
    };
    assert_eq!(def.expand(&vec![Token::Int(7)]), Ok(vec![Token::Ident(Y), Token::Int(7)]));
}

#[test]
fn a_marker_stands_for_the_empty_block_wherever_it_is_invoked() {
    let defs = vec![marker(CONCAT), marker(FILE)];
    let block = vec![Token::Open(Delim::Brace), Token::Close(Delim::Brace)];
    assert!(defs[0].is_marker());
    assert!(!pick().is_marker());
    assert_eq!(expand(&defs, FILE, &vec![]), Ok(block.clone()));
    assert_eq!(expand(&defs, CONCAT, &vec![]), Ok(block.clone()));
    assert_eq!(expand(&defs, CONCAT, &vec![Token::Str(TEST2)]), Ok(block));
}

#[test]
fn a_rule_that_takes_no_tokens_is_a_marker_only_with_the_empty_block() {
    let def = MacroDef {
        name: CONCAT,
        rules: vec![Rule { pattern: vec![], expansion: vec![Piece::Token(Token::Int(0))] }],
    };
    assert!(!def.is_marker());
    assert_eq!(def.expand(&vec![]), Ok(vec![Token::Int(0)]));
    assert_eq!(def.expand(&vec![Token::Str(TEST2)]), Err(CompileError::NoMatchingRule));
}

#[test]
fn an_empty_block_is_unit_and_never_equal_to_a_string() {
    let defs = vec![marker(CONCAT)];
    let lhs = expand(&defs, CONCAT, &vec![Token::Str(TEST2)]).unwrap();
    let lhs = constant_of(&lhs).unwrap();
    let rhs = constant_of(&vec![Token::Str(TEST3)]).unwrap();
    assert_eq!(lhs, Value::Unit);
    assert_eq!(lhs.prim(), Prim::Unit);
    assert_eq!(rhs.prim(), Prim::Str);
    assert!(!lhs.equals(&rhs));
    // not even where the invocation held the very literal it is compared with
    let same = expand(&defs, CONCAT, &vec![Token::Str(TEST3)]).unwrap();
    assert!(!constant_of(&same).unwrap().equals(&rhs));
}

#[test]
fn values_are_equal_within_one_type_only() {
    assert!(Value::Unit.equals(&Value::Unit));
    assert!(Value::Str(TEST2).equals(&Value::Str(TEST2)));
    assert!(!Value::Str(TEST2).equals(&Value::Str(TEST3)));
    assert!(Value::Int(3).equals(&Value::Int(3)));
    assert!(!Value::Int(3).equals(&Value::Int(4)));
    assert!(!Value::Int(0).equals(&Value::Unit));
    assert!(!Value::Int(TEST2 as u64).equals(&Value::Str(TEST2)));
    assert_eq!(Value::Int(3).prim(), Prim::I32);
}

#[test]
fn constants_are_the_empty_block_and_single_literals() {
    assert_eq!(constant_of(&vec![Token::Open(Delim::Brace), Token::Close(Delim::Brace)]), Some(Value::Unit));
    assert_eq!(constant_of(&vec![Token::Str(TEST2)]), Some(Value::Str(TEST2)));
    assert_eq!(constant_of(&vec![Token::Int(123)]), Some(Value::Int(123)));
    assert_eq!(constant_of(&vec![]), None);
    assert_eq!(constant_of(&vec![Token::Ident(X)]), None);
    assert_eq!(constant_of(&vec![Token::Open(Delim::Paren), Token::Close(Delim::Paren)]), None);
    assert_eq!(constant_of(&vec![Token::Close(Delim::Brace), Token::Open(Delim::Brace)]), None);
    assert_eq!(constant_of(&vec![Token::Int(1), Token::Int(2)]), None);
}

#[test]
fn a_rule_matches_token_by_token() {
    let rule = &swap().rules[0];
    assert!(rule.matches(&vec![Token::Int(1), Token::Punct(COMMA), Token::Int(2)]));
    assert!(rule.matches(&vec![Token::Open(Delim::Paren), Token::Punct(COMMA), Token::Ident(X)]));
    assert!(!rule.matches(&vec![Token::Int(1), Token::Int(2), Token::Int(3)]));
    assert!(!rule.matches(&vec![Token::Int(1), Token::Punct(COMMA)]));
    assert_eq!(
        rule.transcribe(&vec![Token::Int(1), Token::Punct(COMMA), Token::Int(2)]),
        vec![Token::Int(2), Token::Punct(COMMA), Token::Int(1), Token::Int(1)]
    );
}
