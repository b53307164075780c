# stellarlend

The logic of the StellarLend lending protocol, verified with Verus.

`src/` holds the library. Every function in it carries a `requires`/`ensures`
contract that Verus proves, and the laws that relate several operations are
stated and proved as public proof functions next to the code they are about.

- `interest`, `collateral`, `health_factor`, `liquidation`: the fixed-point
  formulas, with exact contracts over `int` models and their monotonicity,
  threshold and no-overflow laws.
- `accounting`, `deposit`, `withdraw`, `rewards`: small state machines for
  debt, deposits, withdrawals and reward indexes; refused operations leave the
  state unchanged.
- `debt_token`: a registry of debt positions held as transferable tokens, with
  its ownership invariant and the laws of transfer, mint and burn.
- `rebalancing`: per-user rebalancing configuration and the decision of
  whether, and how, to rebalance a position.
- `invariants`, `state_machine`, `explorer`, `invariant_test_suite`: the
  protocol invariants, a simulated protocol state, the systematic exploration
  of action sequences, and the invariant test suite built on them.
- `address`, `text`, `math`: account ids, decimal rendering and integer
  division helpers.

`app/` is the Soroban layer around the library: authorisation, ledger time,
events, the contract-typed copies of the library's types, and the
floating-point confidence metrics and report of the test suite.

`tests/` exercises the library on concrete values.
