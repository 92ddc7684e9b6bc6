use team_picker::cli::ArgParser;
use team_picker::composition::{parse_composition, PositionRequirements};
use team_picker::evaluator::evaluate_position;
use team_picker::lineup::{find_best_positions, make_lineup, optimize_lineup};
use team_picker::pick::{to_pick_data, PickTempData};
use team_picker::player::Player;
use team_picker::roster::{read_roster, parse_i32};
use team_picker::composition::trim_comment;

fn pick(name: &str, scores: Vec<(&str, i64)>) -> PickTempData {
    PickTempData {
        name: name.to_string(),
        position_scores: scores.into_iter().map(|(c, v)| (c.to_string(), v)).collect(),
        max_score: 0,
    }
}

fn reqs(attacking: Vec<&str>, defensive: Vec<&str>, calc: Vec<(&str, &str)>) -> PositionRequirements {
    PositionRequirements {
        attacking: attacking.into_iter().map(|s| s.to_string()).collect(),
        defensive: defensive.into_iter().map(|s| s.to_string()).collect(),
        position_to_calculation: calc
            .into_iter()
            .map(|(k, v)| (k.to_string(), v.to_string()))
            .collect(),
    }
}

#[test]
fn test_assignment_picks_best_bijection() {
    let players = vec![
        pick("P1", vec![("A", 10), ("B", 5)]),
        pick("P2", vec![("A", 4), ("B", 8)]),
    ];
    let positions: Vec<String> = vec!["A".to_string(), "B".to_string()];
    let (list, total) = find_best_positions(&players, &positions).unwrap();
    assert_eq!(total, 18);
    assert_eq!(list.len(), 2);
    assert_eq!(list[0].0, "P1");
    assert_eq!(list[0].1.position, "A");
    assert_eq!(list[0].1.score, 10);
    assert_eq!(list[1].0, "P2");
    assert_eq!(list[1].1.position, "B");
    assert_eq!(list[1].1.score, 8);
}

#[test]
fn test_assignment_none_when_no_score() {
    let players = vec![pick("P1", vec![("B", 5)])];
    let positions: Vec<String> = vec!["A".to_string()];
    assert!(find_best_positions(&players, &positions).is_none());
}

#[test]
fn test_assignment_duplicate_codes() {
    let players = vec![
        pick("P1", vec![("A", 3)]),
        pick("P2", vec![("A", 7)]),
    ];
    let positions: Vec<String> = vec!["A".to_string(), "A".to_string()];
    let (_, total) = find_best_positions(&players, &positions).unwrap();
    assert_eq!(total, 10);
}

#[test]
fn test_make_lineup_joins_by_name() {
    let starters = vec![pick("P1", vec![("A", 10)]), pick("P2", vec![("A", 4)])];
    let positions: Vec<String> = vec!["A".to_string(), "A".to_string()];
    let (off, _) = find_best_positions(&starters, &positions).unwrap();
    let (def, _) = find_best_positions(&starters, &positions).unwrap();
    let lineup = make_lineup(&starters, &off, &def);
    assert_eq!(lineup.len(), 2);
    assert_eq!(lineup[0].name, "P1");
    assert_eq!(lineup[0].total_score, 20);
    assert_eq!(lineup[1].name, "P2");
    assert_eq!(lineup[1].total_score, 8);
}

#[test]
fn test_optimizer_adopts_improving_bench_player() {
    let weak = pick("Weak", vec![("A", 1), ("D", 1)]);
    let strong = pick("Strong", vec![("A", 9), ("D", 9)]);
    let all = vec![weak.clone(), strong.clone()];
    let initial = vec![weak];
    let r = reqs(vec!["A"], vec!["D"], vec![]);
    let (lineup, score) = optimize_lineup(&all, initial, &r).unwrap();
    assert_eq!(score, 18);
    assert_eq!(lineup.len(), 1);
    assert_eq!(lineup[0].name, "Strong");
}

#[test]
fn test_optimizer_idempotent_at_fixed_point() {
    let a = pick("A1", vec![("A", 9), ("D", 2)]);
    let b = pick("B1", vec![("A", 3), ("D", 8)]);
    let c = pick("C1", vec![("A", 1), ("D", 1)]);
    let all = vec![a.clone(), b.clone(), c.clone()];
    let r = reqs(vec!["A", "A"], vec!["D", "D"], vec![]);

    let (first, score1) = optimize_lineup(&all, vec![a.clone(), c.clone()], &r).unwrap();
    let names1: Vec<String> = first.iter().map(|p| p.name.clone()).collect();
    assert_eq!(score1, 22);

    // run again from the already-optimal roster: nothing changes
    let optimal: Vec<PickTempData> = names1
        .iter()
        .map(|n| all.iter().find(|p| &p.name == n).unwrap().clone())
        .collect();
    let (second, score2) = optimize_lineup(&all, optimal, &r).unwrap();
    let names2: Vec<String> = second.iter().map(|p| p.name.clone()).collect();
    assert_eq!(score2, score1);
    assert_eq!(names2, names1);
}

#[test]
fn test_to_pick_data_scores_and_bound() {
    let player = Player {
        name: "Ann".to_string(),
        stats: vec![("QB".to_string(), 60), ("HB".to_string(), 55), ("DL".to_string(), 40)],
    };
    let r = reqs(vec!["RN", "RN"], vec!["DL"], vec![("RN", "max(HB, QB)")]);
    let data = to_pick_data(&player, &r);
    assert_eq!(data.name, "Ann");
    // RN appears twice but is evaluated once; DL defaults to the stat
    assert_eq!(data.position_scores.len(), 2);
    let rn = data.position_scores.iter().find(|e| e.0 == "RN").unwrap().1;
    let dl = data.position_scores.iter().find(|e| e.0 == "DL").unwrap().1;
    assert_eq!(rn, 60);
    assert_eq!(dl, 40);
    assert_eq!(data.max_score, 100);
}

#[test]
fn test_to_pick_data_bad_formula_scores_zero() {
    let player = Player { name: "Bo".to_string(), stats: vec![("QB".to_string(), 60)] };
    let r = reqs(vec!["XX"], vec!["QB"], vec![]);
    let data = to_pick_data(&player, &r);
    // XX matches no stat: its score degrades to 0, the run goes on
    let xx = data.position_scores.iter().find(|e| e.0 == "XX").unwrap().1;
    assert_eq!(xx, 0);
    assert_eq!(data.max_score, 60);
}

#[test]
fn test_evaluate_position_uses_mapping_or_code() {
    let player = Player {
        name: "Cy".to_string(),
        stats: vec![("QB".to_string(), 60), ("HB".to_string(), 55)],
    };
    let r = reqs(vec![], vec![], vec![("RN", "QB + HB")]);
    assert_eq!(evaluate_position(&player, "RN", &r).unwrap(), 115);
    assert_eq!(evaluate_position(&player, "QB", &r).unwrap(), 60);
}

#[test]
fn test_parse_composition() {
    let text = "# roster layout\r\nOffense: RN RN GN\nDefense: DL CV  # backs\nRN=max(HB,QB)\nGN = GN ; comment\nRN=QB\n\nnonsense line\n";
    let r = parse_composition(text);
    let att: Vec<&str> = r.attacking.iter().map(|s| s.as_str()).collect();
    let def: Vec<&str> = r.defensive.iter().map(|s| s.as_str()).collect();
    assert_eq!(att, vec!["RN", "RN", "GN"]);
    assert_eq!(def, vec!["DL", "CV"]);
    // the later RN line replaced the earlier formula
    let rn = r.position_to_calculation.iter().find(|e| e.0 == "RN").unwrap();
    assert_eq!(rn.1, "QB");
    let gn = r.position_to_calculation.iter().find(|e| e.0 == "GN").unwrap();
    assert_eq!(gn.1, "GN");
    assert_eq!(r.position_to_calculation.len(), 2);
}

#[test]
fn test_read_roster() {
    let text = "Name XP QB HB\n\nAlice\nmeta\t3\t60\t55\n[CAPTAIN] Bob\nmeta\t1\t40\t70\nBroken\nno tabs here\n";
    let players = read_roster(text).unwrap();
    assert_eq!(players.len(), 2);
    assert_eq!(players[0].name, "Alice");
    assert_eq!(players[0].stats.len(), 3);
    assert_eq!(players[0].stats.iter().find(|e| e.0 == "QB").unwrap().1, 60);
    assert_eq!(players[1].name, "Bob");
    assert_eq!(players[1].stats.iter().find(|e| e.0 == "HB").unwrap().1, 70);
}

#[test]
fn test_read_roster_bad_header() {
    assert!(read_roster("Wrong XP\nAlice\nx\t1\n").is_none());
    assert!(read_roster("").unwrap().is_empty());
}

#[test]
fn test_trim_comment() {
    assert_eq!(trim_comment("  RN=QB  # best runner"), "RN=QB");
    assert_eq!(trim_comment("a // b # c"), "a");
    assert_eq!(trim_comment("x ; y"), "x");
    assert_eq!(trim_comment("   "), "");
}

#[test]
fn test_read_roster_values() {
    assert_eq!(parse_i32("42"), Some(42));
    assert_eq!(parse_i32("-7"), Some(-7));
    assert_eq!(parse_i32("+7"), Some(7));
    assert_eq!(parse_i32("2147483647"), Some(2147483647));
    assert_eq!(parse_i32("2147483648"), None);
    assert_eq!(parse_i32("-2147483648"), Some(-2147483648));
    assert_eq!(parse_i32(""), None);
    assert_eq!(parse_i32("-"), None);
    assert_eq!(parse_i32("1x"), None);
    assert_eq!(parse_i32("99999999999999999999"), None);

    let text = "Name Spd\nZed\nx\t-12\n";
    let players = read_roster(text).unwrap();
    assert_eq!(players[0].stats[0], ("Spd".to_string(), -12));
}

#[test]
fn test_arg_parser() {
    let args: Vec<String> = vec!["-c".to_string(), "comp.txt".to_string(), "-x".to_string()];
    let flags: Vec<String> = vec!["-c".to_string(), "-t".to_string(), "-h".to_string()];
    let parser = ArgParser::new(args, flags);
    assert!(parser.has_flag("-c"));
    assert!(!parser.has_flag("-h"));
    let keys: Vec<String> = vec!["-c".to_string(), "--composition".to_string()];
    assert_eq!(parser.value_of(&keys).unwrap(), "comp.txt");
    let tkeys: Vec<String> = vec!["-t".to_string()];
    assert!(parser.value_of(&tkeys).is_none());
    assert_eq!(parser.check_unrecognized().unwrap(), "-x");
}
