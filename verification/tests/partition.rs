use midnight_ledger::context::{Fr, TranscriptRejected};
use midnight_ledger::ledger::{dummy_limits, CostModel, LedgerParameters, TransactionCostModel};
use midnight_ledger::partition::{call_graph, check_forest, cost_heuristic, guaranteed_sections, PartitionFailure};

fn fr(b: u8) -> Fr {
    Fr([b; 32])
}

#[test]
fn call_graph_from_claims() {
    let claimed = vec![vec![fr(2), fr(9)], vec![fr(3)], vec![], vec![fr(2)]];
    let comms = vec![Some(fr(1)), Some(fr(2)), Some(fr(3)), None];
    let g = call_graph(&claimed, &comms);
    assert_eq!(g, vec![vec![1], vec![2], vec![], vec![1]]);
}

#[test]
fn forest_roots() {
    let g = vec![vec![1, 2], vec![3], vec![], vec![], vec![]];
    assert_eq!(check_forest(&g).unwrap(), vec![0, 4]);
}

#[test]
fn forest_refuses_two_callers_and_cycles() {
    let two_callers = vec![vec![1], vec![], vec![1]];
    assert!(matches!(check_forest(&two_callers), Err(PartitionFailure::NonForest)));
    let cycle = vec![vec![1], vec![2], vec![0]];
    assert!(matches!(check_forest(&cycle), Err(PartitionFailure::NonForest)));
    let self_call = vec![vec![0]];
    assert!(matches!(check_forest(&self_call), Err(PartitionFailure::NonForest)));
    assert_eq!(check_forest(&vec![]).unwrap(), Vec::<usize>::new());
}

fn runtime_costs() -> CostModel {
    CostModel {
        noop_constant: 1,
        noop_linear: 1,
        branch: 1,
        jmp: 1,
        ckpt: 1,
        lt: 1,
        eq: 1,
        type_: 1,
        size: 1,
        new: 1,
        and: 1,
        or: 1,
        neg: 1,
        log: 1,
        root: 1,
        pop: 1,
        popeqc_constant: 1,
        popeq_constant: 1,
        popeqc_linear: 1,
        popeq_linear: 1,
        addi: 1,
        subi: 1,
        pushs_constant: 1,
        pushs_linear: 1,
        push_constant: 1,
        push_linear: 1,
        add: 1,
        sub: 1,
        concatc_constant: 1,
        concatc_linear: 1,
        concat_constant: 1,
        concat_linear: 1,
        member_constant: 1,
        member_linear: 1,
        member_logarithmic: 1,
        remc_constant: 1,
        remc_linear: 1,
        remc_logarithmic: 1,
        rem_constant: 1,
        rem_linear: 1,
        rem_logarithmic: 1,
        dup: 1,
        swap: 1,
        idxpc_constant: 1,
        idxc_constant: 1,
        idxp_constant: 1,
        idx_constant: 1,
        idxpc_linear: 1,
        idxpc_logarithmic: 1,
        idxc_linear: 1,
        idxc_logarithmic: 1,
        idxp_linear: 1,
        idxp_logarithmic: 1,
        idx_linear: 1,
        idx_logarithmic: 1,
        insc_constant: 1,
        ins_constant: 1,
        insc_linear: 1,
        insc_logarithmic: 1,
        ins_linear: 1,
        ins_logarithmic: 1,
    }
}

fn parameters() -> LedgerParameters {
    LedgerParameters {
        cost_model: TransactionCostModel {
            runtime_cost_model: runtime_costs(),
            transaction_cost_per_byte: 1,
            verify_cost_constant: 5_000,
            verify_cost_linear: 50,
            deploy_cost_per_byte: 100,
            mint_cost: 10_000,
        },
        limits: dummy_limits(),
        ticket_cost_multiplier: 1_000,
        ticket_cost_divisor: 1_000,
    }
}

#[test]
fn run_costs() {
    let p = parameters();
    assert_eq!(cost_heuristic(100, &p), 120);
    assert_eq!(cost_heuristic(4, &p), 4);
    let mut q = parameters();
    q.ticket_cost_multiplier = 3;
    q.ticket_cost_divisor = 2;
    assert_eq!(cost_heuristic(10, &q), 18);
}

#[test]
fn sections_split_by_budget() {
    let p = parameters();
    let g = vec![vec![1], vec![2], vec![], vec![]];
    let roots = check_forest(&g).unwrap();
    assert_eq!(roots, vec![0, 3]);
    let comms = vec![None, Some(fr(1)), Some(fr(2)), None];
    let no_ckpts = vec![1, 0, 0, 2];
    let sizes = vec![10, 10, 10, 5];
    let full_gas = vec![100, 50, 50, 80];
    let runs = vec![
        vec![Ok((10, vec![])), Ok((500, vec![fr(1)]))],
        vec![Ok((1, vec![])), Ok((100, vec![])), Ok((200, vec![]))],
    ];
    let s = guaranteed_sections(&g, &roots, &comms, &no_ckpts, &sizes, &full_gas, runs, &p).unwrap();
    assert_eq!(s, vec![2, 1, 1, 2]);

    // Nothing of the second root fits its budget.
    let runs = vec![
        vec![Ok((10, vec![])), Ok((500, vec![fr(1)]))],
        vec![Ok((500, vec![])), Ok((500, vec![])), Ok((500, vec![]))],
    ];
    let s = guaranteed_sections(&g, &roots, &comms, &no_ckpts, &sizes, &full_gas, runs, &p).unwrap();
    assert_eq!(s, vec![2, 1, 1, 0]);

    // The first root's full run does not fit once its callee's cost is added.
    let runs = vec![
        vec![Ok((10, vec![])), Ok((530, vec![fr(1)]))],
        vec![Ok((1, vec![])), Ok((100, vec![])), Ok((200, vec![]))],
    ];
    let s = guaranteed_sections(&g, &roots, &comms, &no_ckpts, &sizes, &full_gas, runs, &p).unwrap();
    assert_eq!(s, vec![1, 0, 0, 2]);

    // A rejected run stops the split.
    let runs = vec![
        vec![Ok((10, vec![])), Ok((500, vec![fr(1)]))],
        vec![Ok((1, vec![])), Ok((100, vec![])), Err(TranscriptRejected::FinalStackWrongLength)],
    ];
    assert!(matches!(
        guaranteed_sections(&g, &roots, &comms, &no_ckpts, &sizes, &full_gas, runs, &p),
        Err(TranscriptRejected::FinalStackWrongLength)
    ));
}
