use polysolve::rational::Rat;
use polysolve::solve::SolutionSet;

fn run(s: &str) -> Result<(Vec<Rat>, SolutionSet), polysolve::parse::EquationError> {
    polysolve::solve_equation(s.as_bytes())
}

#[test]
fn degenerate_all_reals() {
    let (v, sol) = run("0 * X^0 = 0").unwrap();
    assert!(v.is_empty());
    assert!(matches!(sol, SolutionSet::AllReals));
}

#[test]
fn invalid_constant() {
    let (v, sol) = run("1 * X^0 = 0").unwrap();
    assert_eq!(v.len(), 1);
    assert!(matches!(sol, SolutionSet::Invalid));
}

#[test]
fn linear_round_trip() {
    let (_, sol) = run("4 * X^0 + 8 * X^1 = 0").unwrap();
    match sol {
        SolutionSet::OneSolution(x) => {
            let expect = Rat::new(-1, 2);
            assert!(x.same_value(&expect));
        }
        _ => panic!("expected one solution"),
    }
}

#[test]
fn single_monomial_reduction() {
    let (v, _) = run("5.5 * X^2 = 0").unwrap();
    assert_eq!(v.len(), 3);
    assert_eq!((v[2].num, v[2].den), (55, 10));
    assert_eq!(v[0].num, 0);
    assert_eq!(v[1].num, 0);
}

#[test]
fn quadratic_zero_discriminant() {
    let (_, sol) = run("1 * X^0 - 2 * X^1 + 1 * X^2 = 0").unwrap();
    match sol {
        SolutionSet::OneSolution(x) => assert!(x.same_value(&Rat::new(1, 1))),
        _ => panic!("expected one solution"),
    }
}

#[test]
fn quadratic_negative_discriminant() {
    let (_, sol) = run("1 * X^0 + 1 * X^2 = 0").unwrap();
    match sol {
        SolutionSet::NoRealSolution { real, imag } => {
            assert_eq!(real.num, 0);
            // imaginary magnitude: sqrt(4) / 2 = 1
            assert_eq!((imag.radicand.num, imag.radicand.den), (4, 1));
            assert!(imag.coeff.same_value(&Rat::new(1, 2)));
        }
        _ => panic!("expected complex roots"),
    }
}

#[test]
fn quadratic_positive_discriminant_vieta() {
    let (_, sol) = run("4 * X^0 + 4 * X^1 - 9.3 * X^2 = 0").unwrap();
    match sol {
        SolutionSet::TwoSolutions(r1, r2) => {
            let to_f = |r: &Rat| r.num as f64 / r.den as f64;
            let x1 = to_f(&r1.base) + to_f(&r1.coeff) * to_f(&r1.radicand).sqrt();
            let x2 = to_f(&r2.base) + to_f(&r2.coeff) * to_f(&r2.radicand).sqrt();
            let a = -9.3f64;
            let b = 4.0f64;
            let c = 4.0f64;
            assert!(x1 >= x2);
            assert!((x1 + x2 - (-b / a)).abs() < 1e-6);
            assert!((x1 * x2 - (c / a)).abs() < 1e-6);
        }
        _ => panic!("expected two roots"),
    }
}

#[test]
fn degree_too_high() {
    let (_, sol) = run("1 * X^3 = 0").unwrap();
    assert!(matches!(sol, SolutionSet::Unsolvable(3)));
}

#[test]
fn malformed_number() {
    assert!(run("abc").is_err());
}

#[test]
fn bad_power_token() {
    assert!(run("X^z").is_err());
}

#[test]
fn trim_is_idempotent() {
    let mut v = vec![Rat::new(1, 1), Rat::new(2, 1)];
    polysolve::reduce::trim_trailing_zeros(&mut v);
    let w = v.clone();
    polysolve::reduce::trim_trailing_zeros(&mut v);
    assert_eq!(v.len(), w.len());
    assert!(v[0].same_value(&w[0]) && v[1].same_value(&w[1]));
}

#[test]
fn render_quadratic_line() {
    let (v, _) = run("4 * X^0 + 4 * X^1 - 9.3 * X^2 = 0").unwrap();
    let line = polysolve::render::render_polynomial(&v);
    assert_eq!(
        String::from_utf8(line).unwrap(),
        "Reduced form: 4 * X^0 + 4 * X^1 - 9.3 * X^2 = 0"
    );
}

#[test]
fn render_empty_polynomial() {
    let (v, _) = run("0 * X^0 = 0").unwrap();
    let line = polysolve::render::render_polynomial(&v);
    assert_eq!(
        String::from_utf8(line).unwrap(),
        "The polynomial is empty: 0 = 0"
    );
}

#[test]
fn render_fraction_denominator() {
    let v = vec![Rat::new(-1, 3)];
    let line = polysolve::render::render_polynomial(&v);
    assert_eq!(String::from_utf8(line).unwrap(), "Reduced form: - 1/3 * X^0 = 0");
}

#[test]
fn messages_and_exit_codes() {
    let (_, unsolvable) = run("1 * X^3 = 0").unwrap();
    assert_eq!(polysolve::render::outcome_exit_code(&unsolvable), 3);
    let (_, invalid) = run("1 * X^0 = 0").unwrap();
    assert_eq!(polysolve::render::outcome_exit_code(&invalid), 4);
    assert_eq!(
        polysolve::render::outcome_message(&invalid),
        "The equation provided is invalid. There is no solution."
    );
    let (_, all) = run("0 * X^0 = 0").unwrap();
    assert_eq!(polysolve::render::outcome_exit_code(&all), 0);
    assert_eq!(
        polysolve::render::outcome_message(&all),
        "Every real number is a solution"
    );
    let bad_power = run("X^z").unwrap_err();
    assert_eq!(polysolve::render::error_exit_code(&bad_power), 1);
    assert_eq!(
        polysolve::render::error_prefix(&bad_power),
        "Failed to parse power value: "
    );
    let bad_token = run("oops").unwrap_err();
    assert_eq!(polysolve::render::error_exit_code(&bad_token), 2);
}

#[test]
fn exponent_literals() {
    let (v, _) = run("1e3 * X^0 = 0").unwrap();
    assert_eq!((v[0].num, v[0].den), (1000, 1));
    let (v, _) = run("2.5e-3 * X^1 = 0").unwrap();
    assert_eq!((v[1].num, v[1].den), (25, 10000));
    let (v, _) = run("5E2 * X^0 = 0").unwrap();
    assert_eq!((v[0].num, v[0].den), (500, 1));
}

#[test]
fn exponent_without_digits_is_malformed() {
    assert!(matches!(
        run("1e").unwrap_err(),
        polysolve::parse::EquationError::BadNumber(_)
    ));
}

#[test]
fn exponent_out_of_range() {
    assert!(matches!(
        run("1e99999999999999999999").unwrap_err(),
        polysolve::parse::EquationError::NumberTooLarge(_)
    ));
}
