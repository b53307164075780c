use stellarlend::interest::{reference_interest, BPS_DIVISOR, INTEREST_RATE_PER_YEAR, MAX_SAFE_PRINCIPAL, SECONDS_PER_YEAR};

/// **I-01**: Zero principal always yields zero interest.
#[test]
fn lemma_i01_zero_principal_yields_zero() {
    for elapsed in [0i128, 1, 60, 3600, SECONDS_PER_YEAR, i128::MAX / 2] {
        let result = reference_interest(0, elapsed);
        assert_eq!(
            result,
            Some(0),
            "I-01 failed for elapsed={elapsed}"
        );
    }
}

/// **I-02**: Zero elapsed time always yields zero interest.
#[test]
fn lemma_i02_zero_elapsed_yields_zero() {
    for principal in [0i128, 1, 1_000, 1_000_000, MAX_SAFE_PRINCIPAL] {
        let result = reference_interest(principal, 0);
        assert_eq!(
            result,
            Some(0),
            "I-02 failed for principal={principal}"
        );
    }
}

/// **I-03**: Interest is non-negative for non-negative inputs.
///
/// Note: `reference_interest` uses i128 intermediates.  The safe domain
/// is principals ≤ `MAX_SAFE_PRINCIPAL` = i128::MAX / 500.
#[test]
fn lemma_i03_interest_is_non_negative() {
    let test_cases: &[(i128, i128)] = &[
        (1, 1),
        (1_000, 3600),
        (1_000_000, SECONDS_PER_YEAR),
        // Use a principal safely within i128 intermediate bounds
        (MAX_SAFE_PRINCIPAL / SECONDS_PER_YEAR, SECONDS_PER_YEAR),
    ];
    for &(p, t) in test_cases {
        let interest = reference_interest(p, t).expect("I-03: unexpected overflow");
        assert!(
            interest >= 0,
            "I-03 failed: negative interest for principal={p}, elapsed={t}"
        );
    }
}

/// **I-04**: Monotonically non-decreasing in principal.
/// If P₁ ≤ P₂ then interest(P₁, Δt) ≤ interest(P₂, Δt).
#[test]
fn lemma_i04_monotone_in_principal() {
    let principals: &[i128] = &[0, 1, 500, 10_000, 1_000_000, 1_000_000_000];
    let elapsed = 86_400i128; // 1 day
    let mut prev = 0i128;
    for &p in principals {
        let curr = reference_interest(p, elapsed).expect("I-04: overflow");
        assert!(
            curr >= prev,
            "I-04 monotonicity violated: interest({p}) < interest({prev_p})",
            prev_p = p - 1
        );
        prev = curr;
    }
}

/// **I-05**: Monotonically non-decreasing in elapsed time.
/// If Δt₁ ≤ Δt₂ then interest(P, Δt₁) ≤ interest(P, Δt₂).
#[test]
fn lemma_i05_monotone_in_time() {
    let principal = 1_000_000i128;
    let times: &[i128] = &[0, 1, 60, 3600, 86_400, SECONDS_PER_YEAR];
    let mut prev = 0i128;
    for &t in times {
        let curr = reference_interest(principal, t).expect("I-05: overflow");
        assert!(
            curr >= prev,
            "I-05 monotonicity violated at t={t}: interest={curr} < prev={prev}"
        );
        prev = curr;
    }
}

/// **I-06**: Annual interest on the maximum safe principal does not overflow.
///
/// The production implementation uses I256 intermediate arithmetic, so overflow
/// is structurally impossible for any i128 principal.  This test validates the
/// reference i128 implementation with `MAX_SAFE_PRINCIPAL` = i128::MAX / 500,
/// which is the largest value that avoids i128 intermediate overflow in this
/// reference function.
#[test]
fn lemma_i06_no_overflow_on_max_safe_principal() {
    // Use a principal that fits comfortably within the i128 safe domain
    let principal = MAX_SAFE_PRINCIPAL / SECONDS_PER_YEAR; // avoids P*rate*time overflow
    let result = reference_interest(principal, SECONDS_PER_YEAR);
    assert!(
        result.is_some(),
        "I-06 failed: overflow for principal={principal}"
    );
    let interest = result.unwrap();
    let expected = principal / 20; // 5% of principal
    // Allow ±1 for integer division rounding
    assert!(
        (interest - expected).abs() <= 1,
        "I-06: interest={interest} deviates from expected={expected}"
    );
}

/// **I-07**: For any Δt ≤ 1 year, interest ≤ 5% of principal.
///
/// All principals below MAX_SAFE_PRINCIPAL / SECONDS_PER_YEAR are safe for
/// the i128 reference implementation.  For larger principals, the production
/// I256-based implementation is used instead (see `calculate_interest` in borrow.rs).
#[test]
fn lemma_i07_annual_interest_bounded_by_5pct() {
    // Keep principals within i128 intermediate bounds: P*500 must not overflow
    let test_principals: &[i128] = &[
        1_000,
        1_000_000,
        1_000_000_000,
        1_000_000_000_000,
        i128::MAX / INTEREST_RATE_PER_YEAR / SECONDS_PER_YEAR, // max safe for 1 year
    ];
    for &p in test_principals {
        let interest = reference_interest(p, SECONDS_PER_YEAR)
            .expect("I-07: overflow");
        // 5% of principal, allow +1 for rounding
        let max_allowed = p / 20 + 1;
        assert!(
            interest <= max_allowed,
            "I-07 failed: annual interest={interest} > 5% of principal={p}"
        );
        assert!(
            interest < p,
            "I-07 failed: annual interest={interest} exceeds principal={p}"
        );
    }
}

/// **I-08**: Stability fee, when applied, adds a non-negative increment to the
/// base interest.  This test checks the arithmetic of the stability-fee branch
/// independently of oracle availability.
#[test]
fn lemma_i08_stability_fee_is_non_negative_increment() {
    let principal: i128 = 1_000_000;
    let elapsed: i128 = SECONDS_PER_YEAR;
    let stability_fee_bps: i128 = 200; // 2%

    let base = reference_interest(principal, elapsed).expect("I-08: overflow");

    // Stability fee uses the same formula with a different rate
    let stability_fee = principal
        .checked_mul(stability_fee_bps)
        .and_then(|v| v.checked_mul(elapsed))
        .map(|v| v / (BPS_DIVISOR * SECONDS_PER_YEAR))
        .expect("I-08: stability fee overflow");

    assert!(
        stability_fee >= 0,
        "I-08: stability fee is negative: {stability_fee}"
    );
    let total = base.checked_add(stability_fee).expect("I-08: total overflow");
    assert!(
        total >= base,
        "I-08: total interest with stability fee < base interest"
    );
}
