use team_picker::evaluator::{evaluate, EvalError};
use team_picker::player::Player;

fn dummy_player() -> Player {
    let stats: Vec<(String, i32)> = vec![
        ("Spd".to_string(), 10),
        ("Str".to_string(), 20),
        ("QB".to_string(), 60),
        ("HB".to_string(), 55),
        ("BrB".to_string(), 11),
        ("Ddg".to_string(), 30),
        ("Blk".to_string(), 15),
        ("Tck".to_string(), 60),
        ("Dur".to_string(), 50),
        ("Stm".to_string(), 40),
    ];
    Player { name: "Dummy".to_string(), stats }
}

#[test]
fn test_whitespace_stripping() {
    let p = dummy_player();
    assert_eq!(evaluate(&p, " 2 +  3 *  4 ").unwrap(), 14);
    assert_eq!(evaluate(&p, " ( 2 + 3 ) * 4 ").unwrap(), 20);
    assert_eq!(evaluate(&p, " QB  +   HB ").unwrap(), 115);
}

#[test]
fn test_arithmetic_and_precedence() {
    let p = dummy_player();
    assert_eq!(evaluate(&p, "2 + 3 * 4").unwrap(), 14);
    assert_eq!(evaluate(&p, "(2 + 3) * 4").unwrap(), 20);
    assert_eq!(evaluate(&p, "2 + (3 * 4)").unwrap(), 14);
    assert_eq!(evaluate(&p, "10 / 2 - 1").unwrap(), 4);
    assert_eq!(evaluate(&p, "2^3").unwrap(), 8);
}

#[test]
fn test_unary_minus() {
    let p = dummy_player();
    assert_eq!(evaluate(&p, "-3").unwrap(), -3);
    assert_eq!(evaluate(&p, "-(2 + 3)").unwrap(), -5);
    assert_eq!(evaluate(&p, "1 + -2").unwrap(), -1);
    assert_eq!(evaluate(&p, "-QB").unwrap(), -60);
    assert_eq!(evaluate(&p, "-min(QB, HB)").unwrap(), -55);
}

#[test]
fn test_comparison_and_logic() {
    let p = dummy_player();
    assert_eq!(evaluate(&p, "5 > 3").unwrap(), 1);
    assert_eq!(evaluate(&p, "4 == 4").unwrap(), 1);
    assert_eq!(evaluate(&p, "4 != 4").unwrap(), 0);
    assert_eq!(evaluate(&p, "3 < 2 || 1 == 1").unwrap(), 1);
    assert_eq!(evaluate(&p, "!(1 > 2)").unwrap(), 1);
    assert_eq!(evaluate(&p, "1 && 0").unwrap(), 0);
    assert_eq!(evaluate(&p, "1 || 0").unwrap(), 1);
}

#[test]
fn test_logical_ops() {
    let p = dummy_player();
    assert_eq!(evaluate(&p, "not(1)").unwrap(), 0);
    assert_eq!(evaluate(&p, "not(0)").unwrap(), 1);
    assert_eq!(evaluate(&p, "and(1, 0)").unwrap(), 0);
    assert_eq!(evaluate(&p, "or(1, 0)").unwrap(), 1);
    assert_eq!(evaluate(&p, "not(1)").unwrap(), 0);
}

#[test]
fn test_conditionals_and_functions() {
    let p = dummy_player();
    assert_eq!(evaluate(&p, "if(1 > 0, 10, 20)").unwrap(), 10);
    assert_eq!(evaluate(&p, "if(0, 10, 20)").unwrap(), 20);
    assert_eq!(evaluate(&p, "if(3 == 3, 1 + 2, 9)").unwrap(), 3);
    assert_eq!(evaluate(&p, "min(3, 7)").unwrap(), 3);
    assert_eq!(evaluate(&p, "max(2, 5)").unwrap(), 5);
    assert_eq!(evaluate(&p, "average(4, 8, 12)").unwrap(), 8);
}

#[test]
fn test_stat_lookup() {
    let p = dummy_player();
    assert_eq!(evaluate(&p, "Spd").unwrap(), 10);
    assert_eq!(evaluate(&p, "QB + HB").unwrap(), 115);
    assert_eq!(evaluate(&p, "min(QB, HB)").unwrap(), 55);
    assert_eq!(evaluate(&p, "if(Dur >= 50, 1, 0)").unwrap(), 1);
}

#[test]
fn test_errors() {
    let p = dummy_player();

    assert!(evaluate(&p, "2 +").is_err());
    assert!(evaluate(&p, "min()").is_err());
    assert!(evaluate(&p, "if(1, 2)").is_err());
    assert!(evaluate(&p, "1 / 0").is_err());
    assert!(evaluate(&p, "unknown_func(5)").is_err());
    assert!(evaluate(&p, "NotAStat").is_err());
}

#[test]
fn test_error_kinds() {
    let p = dummy_player();
    assert!(matches!(evaluate(&p, "1/0"), Err(EvalError::DivisionByZero)));
    assert!(matches!(evaluate(&p, "average(3, 0)"), Ok(1)));
    assert!(matches!(evaluate(&p, "if(1, 2)"), Err(EvalError::MissingArguments)));
    assert!(matches!(evaluate(&p, "min()"), Err(EvalError::MissingArguments)));
    assert!(matches!(evaluate(&p, "pow(2)"), Err(EvalError::MissingArguments)));
    assert!(matches!(evaluate(&p, "unknown_func(5)"), Err(EvalError::UnknownFunction)));
    assert!(matches!(evaluate(&p, "NotAStat"), Err(EvalError::UnknownStat)));
    assert!(matches!(evaluate(&p, "2 +"), Err(EvalError::InvalidSyntax)));
    assert!(matches!(evaluate(&p, "(2 + 3"), Err(EvalError::InvalidSyntax)));
    // white space is stripped first, so "2 3" reads as the number 23
    assert!(matches!(evaluate(&p, "2 3"), Ok(23)));
    assert!(matches!(evaluate(&p, "2)"), Err(EvalError::InvalidSyntax)));
    assert!(matches!(evaluate(&p, ""), Err(EvalError::InvalidSyntax)));
    assert!(matches!(evaluate(&p, "2 = 3"), Err(EvalError::InvalidSyntax)));
}

#[test]
fn test_case_insensitive_stat_lookup() {
    let p = dummy_player();
    assert_eq!(evaluate(&p, "qb").unwrap(), 60);
    assert_eq!(evaluate(&p, "QB").unwrap(), 60);
    assert_eq!(evaluate(&p, "Qb").unwrap(), 60);
}

#[test]
fn test_truncating_division_and_power() {
    let p = dummy_player();
    assert_eq!(evaluate(&p, "7 / 2").unwrap(), 3);
    assert_eq!(evaluate(&p, "-7 / 2").unwrap(), -3);
    assert_eq!(evaluate(&p, "2^3^2").unwrap(), 64);
    assert_eq!(evaluate(&p, "pow(2, 10)").unwrap(), 1024);
    assert_eq!(evaluate(&p, "2^-1").unwrap(), 0);
    assert_eq!(evaluate(&p, "1^-5").unwrap(), 1);
}

#[test]
fn test_if_arity_and_selection() {
    let p = dummy_player();
    assert!(matches!(evaluate(&p, "IF(1,2)"), Err(EvalError::MissingArguments)));
    assert_eq!(evaluate(&p, "IF(1,2,3)").unwrap(), 2);
    assert_eq!(evaluate(&p, "IF(0,2,3)").unwrap(), 3);
    assert_eq!(evaluate(&p, "IF(-4,2,3)").unwrap(), 2);
}

#[test]
fn test_more_builtins() {
    let p = dummy_player();
    assert_eq!(evaluate(&p, "MIN(4)").unwrap(), 4);
    assert_eq!(evaluate(&p, "MAX(2, 5, 3)").unwrap(), 5);
    assert_eq!(evaluate(&p, "AVERAGE(1, 2)").unwrap(), 1);
    assert_eq!(evaluate(&p, "AnD(2, 3)").unwrap(), 1);
    assert_eq!(evaluate(&p, "or(0, 0)").unwrap(), 0);
    assert_eq!(evaluate(&p, "if(Spd, -1, 1)").unwrap(), -1);
}
