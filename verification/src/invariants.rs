//! Protocol invariants checked after each user action. Each check takes the
//! protocol readings it is about (balances, values, health factor, admin,
//! totals) and reports a violation with a stable identifier, a message and a
//! detail line holding the offending values.
use vstd::prelude::*;
use crate::address::{AccountId, opt_view, same_opt};
use crate::state_machine::UserState;
use crate::text::{int_text, labelled_i128, labelled_pair};

verus! {

/// Health factor of exactly 1.0, in basis points.
pub const HEALTH_FACTOR_ONE: i128 = 10_000;

/// A broken invariant, with what is needed to reproduce it.
#[derive(Debug, Clone)]
pub struct InvariantViolation {
    pub invariant_id: &'static str,
    pub message: &'static str,
    pub detail: String,
}

/// The content of a violation: identifier, message and detail text.
pub type ViolationText = (Seq<char>, Seq<char>, Seq<char>);

impl View for InvariantViolation {
    type V = ViolationText;

    open spec fn view(&self) -> ViolationText {
        (self.invariant_id@, self.message@, self.detail@)
    }
}

/// The contents of a list of violations.
pub open spec fn violations_view(v: Seq<InvariantViolation>) -> Seq<ViolationText> {
    v.map_values(|x: InvariantViolation| x@)
}

/// Known exemptions, each documented with the invariant it relaxes.
#[derive(Debug, Clone, Copy)]
pub struct ExemptionFlags {
    /// INV-012: the admin is resetting the interest rate, so the index may
    /// temporarily dip.
    pub rate_reset_in_progress: bool,
    /// The oracle is in fallback mode, so staleness checks are relaxed.
    pub oracle_fallback_active: bool,
    /// Inside a flash loan, so the liquidity floor may be briefly breached.
    pub flash_loan_context: bool,
}

impl Default for ExemptionFlags {
    fn default() -> (f: Self)
        ensures
            !f.rate_reset_in_progress,
            !f.oracle_fallback_active,
            !f.flash_loan_context,
    {
        ExemptionFlags {
            rate_reset_in_progress: false,
            oracle_fallback_active: false,
            flash_loan_context: false,
        }
    }
}

/// The one-element list when `cond` holds, else the empty list.
pub open spec fn only_if<T>(cond: bool, x: T) -> Seq<T> {
    if cond {
        seq![x]
    } else {
        Seq::empty()
    }
}

/// Text of an optional address: its strkey, or `None`.
pub open spec fn opt_address_text(a: Option<Seq<char>>) -> Seq<char> {
    match a {
        Some(k) => k,
        None => "None"@,
    }
}

pub open spec fn inv_001(health: int) -> ViolationText {
    (
        "INV-001"@,
        "Solvency: health_factor < 1.0 after action — undercollateralised"@,
        "health_factor: "@ + int_text(health),
    )
}

pub open spec fn inv_002(balance: int) -> ViolationText {
    ("INV-002"@, "Collateral balance < 0 — impossible state"@, "balance: "@ + int_text(balance))
}

pub open spec fn inv_003(balance: int) -> ViolationText {
    ("INV-003"@, "Debt balance < 0 — impossible state"@, "balance: "@ + int_text(balance))
}

pub open spec fn inv_004(health: int, debt: int) -> ViolationText {
    (
        "INV-004"@,
        "Liquidation: health_factor < 1.0 but debt == 0 — contradictory state"@,
        "health_factor: "@ + int_text(health) + ", debt: "@ + int_text(debt),
    )
}

pub open spec fn inv_005(before: int, after: int) -> ViolationText {
    (
        "INV-005"@,
        "No-value-creation: collateral_value increased after borrow"@,
        "before: "@ + int_text(before) + ", after: "@ + int_text(after),
    )
}

pub open spec fn inv_006(before: Seq<char>, after: Option<Seq<char>>) -> ViolationText {
    (
        "INV-006"@,
        "Access control: admin changed without explicit set_admin action"@,
        "before: "@ + before + ", after: "@ + opt_address_text(after),
    )
}

pub open spec fn inv_007_debt(before: int, after: int) -> ViolationText {
    (
        "INV-007"@,
        "Pause: debt_balance changed while protocol is paused"@,
        "before: "@ + int_text(before) + ", after: "@ + int_text(after),
    )
}

pub open spec fn inv_007_collateral(before: int, after: int) -> ViolationText {
    (
        "INV-007"@,
        "Pause: collateral_balance changed while protocol is paused"@,
        "before: "@ + int_text(before) + ", after: "@ + int_text(after),
    )
}

pub open spec fn inv_008_zero_debt(debt: int, health: int) -> ViolationText {
    (
        "INV-008"@,
        "Health factor: debt == 0 but health_factor < 1.0 — contradictory"@,
        "debt: "@ + int_text(debt) + ", health_factor: "@ + int_text(health),
    )
}

pub open spec fn inv_008_zero_health(debt: int, health: int) -> ViolationText {
    (
        "INV-008"@,
        "Health factor: debt > 0 but health_factor == 0 — arithmetic error"@,
        "debt: "@ + int_text(debt) + ", health_factor: "@ + int_text(health),
    )
}

pub open spec fn inv_009(collateral_value: int, debt_value: int) -> ViolationText {
    (
        "INV-009"@,
        "Collateral coverage: collateral_value < debt_value on healthy position"@,
        "collateral_value: "@ + int_text(collateral_value) + ", debt_value: "@ + int_text(
            debt_value,
        ),
    )
}

pub open spec fn inv_010(before: int, after: int) -> ViolationText {
    (
        "INV-010"@,
        "Total assets decreased - potential value destruction"@,
        "before: "@ + int_text(before) + ", after: "@ + int_text(after),
    )
}

pub open spec fn inv_011(before: int, after: int) -> ViolationText {
    (
        "INV-011"@,
        "Total assets increased after borrow - money minted"@,
        "before: "@ + int_text(before) + ", after: "@ + int_text(after),
    )
}

pub open spec fn inv_012(before: int, after: int) -> ViolationText {
    (
        "INV-012"@,
        "Interest index decreased - time reversal bug"@,
        "before: "@ + int_text(before) + ", after: "@ + int_text(after),
    )
}

pub open spec fn inv_013(before: int, after: int) -> ViolationText {
    (
        "INV-013"@,
        "Protocol reserves decreased without admin action"@,
        "before: "@ + int_text(before) + ", after: "@ + int_text(after),
    )
}

pub open spec fn inv_014(before: Option<Seq<char>>, after: Option<Seq<char>>) -> ViolationText {
    (
        "INV-014"@,
        "Admin address changed without explicit set_admin"@,
        "before: "@ + opt_address_text(before) + ", after: "@ + opt_address_text(after),
    )
}

/// INV-001, per-user solvency: the health factor (in basis points, 10_000
/// meaning 1.0) must be at least 1.0 after any user action.
pub fn check_inv_001_solvency(health_bps: i128) -> (r: Result<(), InvariantViolation>)
    ensures
        r is Err <==> health_bps < 10_000,
        r matches Err(v) ==> v@ == inv_001(health_bps as int),
{
    if health_bps < HEALTH_FACTOR_ONE {
        return Err(
            InvariantViolation {
                invariant_id: "INV-001",
                message: "Solvency: health_factor < 1.0 after action — undercollateralised",
                detail: labelled_i128("health_factor: ", health_bps),
            },
        );
    }
    Ok(())
}

/// INV-002: the collateral balance is never negative.
pub fn check_inv_002_collateral_non_negative(balance: i128) -> (r: Result<(), InvariantViolation>)
    ensures
        r is Err <==> balance < 0,
        r matches Err(v) ==> v@ == inv_002(balance as int),
{
    if balance < 0 {
        return Err(
            InvariantViolation {
                invariant_id: "INV-002",
                message: "Collateral balance < 0 — impossible state",
                detail: labelled_i128("balance: ", balance),
            },
        );
    }
    Ok(())
}

/// INV-003: the debt balance is never negative.
pub fn check_inv_003_debt_non_negative(balance: i128) -> (r: Result<(), InvariantViolation>)
    ensures
        r is Err <==> balance < 0,
        r matches Err(v) ==> v@ == inv_003(balance as int),
{
    if balance < 0 {
        return Err(
            InvariantViolation {
                invariant_id: "INV-003",
                message: "Debt balance < 0 — impossible state",
                detail: labelled_i128("balance: ", balance),
            },
        );
    }
    Ok(())
}

/// INV-004, liquidation eligibility: a position with health factor below
/// 1.0 must carry debt, so that a liquidator can reach it. Exempt while
/// liquidations are paused.
pub fn check_inv_004_liquidation_eligible(
    liquidation_paused: bool,
    health_bps: i128,
    debt: i128,
) -> (r: Result<(), InvariantViolation>)
    ensures
        r is Err <==> !liquidation_paused && health_bps < 10_000 && debt <= 0,
        r matches Err(v) ==> v@ == inv_004(health_bps as int, debt as int),
{
    if liquidation_paused {
        return Ok(());
    }
    if health_bps < HEALTH_FACTOR_ONE {
        if debt <= 0 {
            return Err(
                InvariantViolation {
                    invariant_id: "INV-004",
                    message: "Liquidation: health_factor < 1.0 but debt == 0 — contradictory state",
                    detail: labelled_pair("health_factor: ", health_bps, ", debt: ", debt),
                },
            );
        }
    }
    Ok(())
}

/// INV-005, no value creation on borrow: the collateral value must not grow
/// across a borrow.
pub fn check_inv_005_no_value_creation_on_borrow(
    collateral_value_before: i128,
    collateral_value_after: i128,
) -> (r: Result<(), InvariantViolation>)
    ensures
        r is Err <==> collateral_value_after > collateral_value_before,
        r matches Err(v) ==> v@ == inv_005(
            collateral_value_before as int,
            collateral_value_after as int,
        ),
{
    if collateral_value_after > collateral_value_before {
        return Err(
            InvariantViolation {
                invariant_id: "INV-005",
                message: "No-value-creation: collateral_value increased after borrow",
                detail: labelled_pair(
                    "before: ",
                    collateral_value_before,
                    ", after: ",
                    collateral_value_after,
                ),
            },
        );
    }
    Ok(())
}

fn admin_change_detail(before: &AccountId, after: &Option<AccountId>) -> (s: String)
    ensures
        s@ == "before: "@ + before@ + ", after: "@ + opt_address_text(opt_view(*after)),
{
    let mut s = String::from_str("before: ");
    s.append(before.as_str());
    s.append(", after: ");
    match after {
        Some(a) => s.append(a.as_str()),
        None => s.append("None"),
    }
    s
}

/// INV-006, admin stability: the admin must not change between actions
/// unless it was explicitly replaced.
pub fn check_inv_006_admin_stability(admin_before: &AccountId, admin_after: &Option<AccountId>) -> (r:
    Result<(), InvariantViolation>)
    ensures
        r is Err <==> opt_view(*admin_after) != Some(admin_before@),
        r matches Err(v) ==> v@ == inv_006(admin_before@, opt_view(*admin_after)),
{
    let unchanged = match admin_after {
        Some(a) => a.same(admin_before),
        None => false,
    };
    if !unchanged {
        return Err(
            InvariantViolation {
                invariant_id: "INV-006",
                message: "Access control: admin changed without explicit set_admin action",
                detail: admin_change_detail(admin_before, admin_after),
            },
        );
    }
    Ok(())
}

/// INV-007, pause immutability: while borrowing is paused, neither the debt
/// nor the collateral balance may change. The debt is checked first.
pub fn check_inv_007_pause_immutability(
    borrow_paused: bool,
    debt_before: i128,
    collateral_before: i128,
    debt_after: i128,
    collateral_after: i128,
) -> (r: Result<(), InvariantViolation>)
    ensures
        r is Err <==> borrow_paused && (debt_after != debt_before || collateral_after
            != collateral_before),
        r matches Err(v) ==> v@ == if debt_after != debt_before {
            inv_007_debt(debt_before as int, debt_after as int)
        } else {
            inv_007_collateral(collateral_before as int, collateral_after as int)
        },
{
    if !borrow_paused {
        return Ok(());
    }
    if debt_after != debt_before {
        return Err(
            InvariantViolation {
                invariant_id: "INV-007",
                message: "Pause: debt_balance changed while protocol is paused",
                detail: labelled_pair("before: ", debt_before, ", after: ", debt_after),
            },
        );
    }
    if collateral_after != collateral_before {
        return Err(
            InvariantViolation {
                invariant_id: "INV-007",
                message: "Pause: collateral_balance changed while protocol is paused",
                detail: labelled_pair("before: ", collateral_before, ", after: ", collateral_after),
            },
        );
    }
    Ok(())
}

/// INV-008, health factor consistency: zero debt never reports a health
/// factor below 1.0, and positive debt never reports a zero health factor.
pub fn check_inv_008_health_factor_consistency(debt: i128, health: i128) -> (r: Result<
    (),
    InvariantViolation,
>)
    ensures
        r is Err <==> (debt == 0 && health < 10_000) || (debt > 0 && health == 0),
        r matches Err(v) ==> v@ == if debt == 0 {
            inv_008_zero_debt(debt as int, health as int)
        } else {
            inv_008_zero_health(debt as int, health as int)
        },
{
    if debt == 0 && health < HEALTH_FACTOR_ONE {
        return Err(
            InvariantViolation {
                invariant_id: "INV-008",
                message: "Health factor: debt == 0 but health_factor < 1.0 — contradictory",
                detail: labelled_pair("debt: ", debt, ", health_factor: ", health),
            },
        );
    }
    if debt > 0 && health == 0 {
        return Err(
            InvariantViolation {
                invariant_id: "INV-008",
                message: "Health factor: debt > 0 but health_factor == 0 — arithmetic error",
                detail: labelled_pair("debt: ", debt, ", health_factor: ", health),
            },
        );
    }
    Ok(())
}

/// INV-009, collateral coverage: a healthy position with debt has collateral
/// value at least its debt value.
pub fn check_inv_009_collateral_covers_debt(
    health: i128,
    collateral_value: i128,
    debt_value: i128,
) -> (r: Result<(), InvariantViolation>)
    ensures
        r is Err <==> health >= 10_000 && debt_value > 0 && collateral_value < debt_value,
        r matches Err(v) ==> v@ == inv_009(collateral_value as int, debt_value as int),
{
    if health >= HEALTH_FACTOR_ONE {
        if debt_value > 0 && collateral_value < debt_value {
            return Err(
                InvariantViolation {
                    invariant_id: "INV-009",
                    message: "Collateral coverage: collateral_value < debt_value on healthy position",
                    detail: labelled_pair(
                        "collateral_value: ",
                        collateral_value,
                        ", debt_value: ",
                        debt_value,
                    ),
                },
            );
        }
    }
    Ok(())
}

/// INV-010: total protocol assets never decrease.
pub fn check_inv_010_total_assets_monotonic(assets_before: i128, assets_after: i128) -> (r: Result<
    (),
    InvariantViolation,
>)
    ensures
        r is Err <==> assets_after < assets_before,
        r matches Err(v) ==> v@ == inv_010(assets_before as int, assets_after as int),
{
    if assets_after < assets_before {
        return Err(
            InvariantViolation {
                invariant_id: "INV-010",
                message: "Total assets decreased - potential value destruction",
                detail: labelled_pair("before: ", assets_before, ", after: ", assets_after),
            },
        );
    }
    Ok(())
}

/// INV-011, conservation of money: a borrow alone never increases the total
/// protocol assets.
pub fn check_inv_011_no_mint_on_borrow(assets_before: i128, assets_after: i128) -> (r: Result<
    (),
    InvariantViolation,
>)
    ensures
        r is Err <==> assets_after > assets_before,
        r matches Err(v) ==> v@ == inv_011(assets_before as int, assets_after as int),
{
    if assets_after > assets_before {
        return Err(
            InvariantViolation {
                invariant_id: "INV-011",
                message: "Total assets increased after borrow - money minted",
                detail: labelled_pair("before: ", assets_before, ", after: ", assets_after),
            },
        );
    }
    Ok(())
}

/// INV-012: the interest index never decreases, except while the admin is
/// resetting the rate or the oracle runs in fallback mode.
pub fn check_inv_012_interest_monotonicity(
    index_before: i128,
    index_after: i128,
    exemptions: &ExemptionFlags,
) -> (r: Result<(), InvariantViolation>)
    ensures
        r is Err <==> !exemptions.rate_reset_in_progress && !exemptions.oracle_fallback_active
            && index_after < index_before,
        r matches Err(v) ==> v@ == inv_012(index_before as int, index_after as int),
{
    if exemptions.rate_reset_in_progress || exemptions.oracle_fallback_active {
        return Ok(());
    }
    if index_after < index_before {
        return Err(
            InvariantViolation {
                invariant_id: "INV-012",
                message: "Interest index decreased - time reversal bug",
                detail: labelled_pair("before: ", index_before, ", after: ", index_after),
            },
        );
    }
    Ok(())
}

/// INV-013: protocol reserves only grow.
pub fn check_inv_013_reserve_monotonic(reserves_before: i128, reserves_after: i128) -> (r: Result<
    (),
    InvariantViolation,
>)
    ensures
        r is Err <==> reserves_after < reserves_before,
        r matches Err(v) ==> v@ == inv_013(reserves_before as int, reserves_after as int),
{
    if reserves_after < reserves_before {
        return Err(
            InvariantViolation {
                invariant_id: "INV-013",
                message: "Protocol reserves decreased without admin action",
                detail: labelled_pair("before: ", reserves_before, ", after: ", reserves_after),
            },
        );
    }
    Ok(())
}

/// INV-014, access control: the admin only changes through an explicit
/// replacement. An admin that is unset before and after is unchanged.
pub fn check_inv_014_access_control(admin_before: &Option<AccountId>, admin_after: &Option<AccountId>) -> (r:
    Result<(), InvariantViolation>)
    ensures
        r is Err <==> opt_view(*admin_after) != opt_view(*admin_before),
        r matches Err(v) ==> v@ == inv_014(opt_view(*admin_before), opt_view(*admin_after)),
{
    if !same_opt(admin_before, admin_after) {
        return Err(
            InvariantViolation {
                invariant_id: "INV-014",
                message: "Admin address changed without explicit set_admin",
                detail: optional_admin_change_detail(admin_before, admin_after),
            },
        );
    }
    Ok(())
}

fn optional_admin_change_detail(before: &Option<AccountId>, after: &Option<AccountId>) -> (s: String)
    ensures
        s@ == "before: "@ + opt_address_text(opt_view(*before)) + ", after: "@ + opt_address_text(
            opt_view(*after),
        ),
{
    let mut s = String::from_str("before: ");
    match before {
        Some(a) => s.append(a.as_str()),
        None => s.append("None"),
    }
    s.append(", after: ");
    match after {
        Some(a) => s.append(a.as_str()),
        None => s.append("None"),
    }
    s
}

/// The protocol-level invariants that need no snapshot: there are none, as
/// every protocol-level check compares against a reading taken before the
/// action.
pub fn assert_all_stateless(exemptions: &ExemptionFlags) -> (r: Vec<InvariantViolation>)
    ensures
        r@.len() == 0,
{
    Vec::new()
}

/// The per-user violations of a position, in the order the checks run:
/// INV-001, INV-002, INV-003, INV-004, INV-008, INV-009.
pub open spec fn user_violations(u: UserState, liquidation_paused: bool) -> Seq<ViolationText> {
    only_if(u.health_factor < 10_000, inv_001(u.health_factor as int)) + only_if(
        u.collateral_balance < 0,
        inv_002(u.collateral_balance as int),
    ) + only_if(u.debt_balance < 0, inv_003(u.debt_balance as int)) + only_if(
        !liquidation_paused && u.health_factor < 10_000 && u.debt_balance <= 0,
        inv_004(u.health_factor as int, u.debt_balance as int),
    ) + only_if(
        (u.debt_balance == 0 && u.health_factor < 10_000) || (u.debt_balance > 0
            && u.health_factor == 0),
        if u.debt_balance == 0 {
            inv_008_zero_debt(u.debt_balance as int, u.health_factor as int)
        } else {
            inv_008_zero_health(u.debt_balance as int, u.health_factor as int)
        },
    ) + only_if(
        u.health_factor >= 10_000 && u.debt_value > 0 && u.collateral_value < u.debt_value,
        inv_009(u.collateral_value as int, u.debt_value as int),
    )
}

pub(crate) fn push_failure(out: &mut Vec<InvariantViolation>, r: Result<(), InvariantViolation>)
    ensures
        violations_view(final(out)@) == violations_view(old(out)@) + match r {
            Err(v) => seq![v@],
            Ok(_) => Seq::empty(),
        },
{
    if let Err(v) = r {
        out.push(v);
        proof {
            assert(violations_view(out@) == violations_view(old(out)@) + seq![v@]);
        }
    } else {
        proof {
            assert(violations_view(out@) == violations_view(old(out)@) + Seq::<ViolationText>::empty());
        }
    }
}

/// Runs every per-user invariant on one position's readings and returns all
/// violations found, without stopping at the first.
pub fn assert_all_for_user(user: &UserState, liquidation_paused: bool) -> (r: Vec<
    InvariantViolation,
>)
    ensures
        violations_view(r@) == user_violations(*user, liquidation_paused),
{
    let mut violations: Vec<InvariantViolation> = Vec::new();
    push_failure(&mut violations, check_inv_001_solvency(user.health_factor));
    push_failure(&mut violations, check_inv_002_collateral_non_negative(user.collateral_balance));
    push_failure(&mut violations, check_inv_003_debt_non_negative(user.debt_balance));
    push_failure(
        &mut violations,
        check_inv_004_liquidation_eligible(liquidation_paused, user.health_factor, user.debt_balance),
    );
    push_failure(
        &mut violations,
        check_inv_008_health_factor_consistency(user.debt_balance, user.health_factor),
    );
    push_failure(
        &mut violations,
        check_inv_009_collateral_covers_debt(
            user.health_factor,
            user.collateral_value,
            user.debt_value,
        ),
    );
    proof {
        assert(violations_view(Seq::<InvariantViolation>::empty()) == Seq::<ViolationText>::empty());
    }
    violations
}

/// A position's readings fail the per-user checks exactly as each check
/// decides on its own: solvency when the health factor is below 1.0,
/// negative collateral or debt balances, a liquidatable position without
/// debt while liquidation runs, a health factor contradicting the debt, and
/// collateral not covering the debt on a healthy position, in that order.
pub proof fn lemma_user_checks_in_order(u: UserState, liquidation_paused: bool)
    ensures
        user_violations(u, liquidation_paused) == only_if(
            u.health_factor < 10_000,
            inv_001(u.health_factor as int),
        ) + only_if(u.collateral_balance < 0, inv_002(u.collateral_balance as int)) + only_if(
            u.debt_balance < 0,
            inv_003(u.debt_balance as int),
        ) + only_if(
            !liquidation_paused && u.health_factor < 10_000 && u.debt_balance <= 0,
            inv_004(u.health_factor as int, u.debt_balance as int),
        ) + only_if(
            u.debt_balance == 0 && u.health_factor < 10_000,
            inv_008_zero_debt(u.debt_balance as int, u.health_factor as int),
        ) + only_if(
            u.debt_balance > 0 && u.health_factor == 0,
            inv_008_zero_health(u.debt_balance as int, u.health_factor as int),
        ) + only_if(
            u.health_factor >= 10_000 && u.debt_value > 0 && u.collateral_value < u.debt_value,
            inv_009(u.collateral_value as int, u.debt_value as int),
        ),
{
    let a = only_if(u.health_factor < 10_000, inv_001(u.health_factor as int)) + only_if(
        u.collateral_balance < 0,
        inv_002(u.collateral_balance as int),
    ) + only_if(u.debt_balance < 0, inv_003(u.debt_balance as int)) + only_if(
        !liquidation_paused && u.health_factor < 10_000 && u.debt_balance <= 0,
        inv_004(u.health_factor as int, u.debt_balance as int),
    );
    let z = only_if(
        u.debt_balance == 0 && u.health_factor < 10_000,
        inv_008_zero_debt(u.debt_balance as int, u.health_factor as int),
    );
    let h = only_if(
        u.debt_balance > 0 && u.health_factor == 0,
        inv_008_zero_health(u.debt_balance as int, u.health_factor as int),
    );
    let c = only_if(
        u.health_factor >= 10_000 && u.debt_value > 0 && u.collateral_value < u.debt_value,
        inv_009(u.collateral_value as int, u.debt_value as int),
    );
    assert(a + z + h + c =~= user_violations(u, liquidation_paused));
}

} // verus!
