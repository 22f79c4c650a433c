use lsystem::grammar::{generate, GenError, LSystem, LSystemConfig, Rule, WEIGHT_ONE};

fn chars(s: &str) -> Vec<char> {
    s.chars().collect()
}

fn rule(result: &str, chance: u64) -> Rule {
    Rule { result: chars(result), chance }
}

fn branching_config(iterations: u32) -> LSystemConfig {
    LSystemConfig {
        iterations,
        initial: chars("F"),
        rules: vec![(
            'F',
            vec![rule("F[+F]", WEIGHT_ONE / 2), rule("F[-F]", WEIGHT_ONE / 2)],
        )],
    }
}

#[test]
fn zero_iterations_returns_initial() {
    let config = LSystemConfig {
        iterations: 0,
        initial: chars("F+X"),
        rules: vec![('F', vec![rule("FF", 1)])],
    };
    assert_eq!(generate(&config, &vec![]), Ok(chars("F+X")));
    let l = LSystem::new(config).unwrap();
    assert_eq!(l.symbols(), &chars("F+X")[..]);
}

#[test]
fn default_config_is_empty() {
    let l = LSystem::new(LSystemConfig::default()).unwrap();
    assert!(l.symbols().is_empty());
}

#[test]
fn complete_weights_never_exhausted() {
    let config = branching_config(3);
    for d in [0u32, 1, u32::MAX / 2, u32::MAX / 2 + 1, u32::MAX] {
        let draws = vec![d; 64];
        assert!(generate(&config, &draws).is_ok());
    }
    for _ in 0..20 {
        assert!(LSystem::new(branching_config(3)).is_ok());
    }
}

#[test]
fn same_draws_same_output() {
    let draws: Vec<u32> = vec![5, u32::MAX, 7, 3_000_000_000, 1, 2, 3, 4, 5, 6, 7, 8];
    let a = generate(&branching_config(2), &draws);
    let b = generate(&branching_config(2), &draws);
    assert_eq!(a, b);
    assert!(a.is_ok());
}

#[test]
fn draw_selects_by_cumulative_weight() {
    let config = branching_config(1);
    let half = (WEIGHT_ONE / 2) as u32;
    assert_eq!(generate(&config, &vec![half - 1]), Ok(chars("F[+F]")));
    assert_eq!(generate(&config, &vec![half]), Ok(chars("F[-F]")));
}

#[test]
fn each_symbol_takes_its_own_draw() {
    let config = branching_config(2);
    let half = (WEIGHT_ONE / 2) as u32;
    // pass one: F -> F[+F]; pass two: F -> F[-F], F -> F[+F]
    let out = generate(&config, &vec![0, half, 0]).unwrap();
    assert_eq!(out, chars("F[-F][+F[+F]]"));
}

#[test]
fn terminals_are_copied() {
    let config = LSystemConfig {
        iterations: 2,
        initial: chars("A+B"),
        rules: vec![('A', vec![rule("AB", WEIGHT_ONE)])],
    };
    assert_eq!(generate(&config, &vec![9, 9]), Ok(chars("ABB+B")));
}

#[test]
fn uncovered_draw_reports_selection_exhausted() {
    let config = LSystemConfig {
        iterations: 1,
        initial: chars("XF"),
        rules: vec![('F', vec![rule("FF", WEIGHT_ONE / 4)])],
    };
    let draw = (WEIGHT_ONE / 4) as u32;
    assert_eq!(
        generate(&config, &vec![draw]),
        Err(GenError::SelectionExhausted { symbol: 'F', draw })
    );
    assert_eq!(generate(&config, &vec![draw - 1]), Ok(chars("XFF")));
}

#[test]
fn too_few_draws_reported() {
    let config = branching_config(2);
    assert_eq!(generate(&config, &vec![0]), Err(GenError::DrawsExhausted));
    assert_eq!(generate(&config, &vec![]), Err(GenError::DrawsExhausted));
}

#[test]
fn first_listing_of_a_symbol_counts() {
    let config = LSystemConfig {
        iterations: 1,
        initial: chars("F"),
        rules: vec![('F', vec![rule("G", WEIGHT_ONE)]), ('F', vec![rule("H", WEIGHT_ONE)])],
    };
    assert_eq!(generate(&config, &vec![0]), Ok(chars("G")));
}

#[test]
fn output_grows_geometrically() {
    let config = LSystemConfig {
        iterations: 10,
        initial: chars("F"),
        rules: vec![('F', vec![rule("FF", WEIGHT_ONE)])],
    };
    let out = generate(&config, &vec![0; 1023]).unwrap();
    assert_eq!(out.len(), 1024);
    let short = generate(&config, &vec![0; 1022]);
    assert_eq!(short, Err(GenError::DrawsExhausted));
}
