use std::rc::Rc;
use zkfhe_trace::basis::Basis;
use zkfhe_trace::comparison::eq_trace::{EQTables, EQTrace};
use zkfhe_trace::field::Fp;
use zkfhe_trace::lookup_trace::indexed_table::{IndexedLookupTrace, IndexedLookupTraceMLE};
use zkfhe_trace::lookup_trace::normal_table::{ceil_log2, LookupTrace, LookupTraceMLE, LookupWitness};
use zkfhe_trace::mle::DenseMultilinearExtension;
use zkfhe_trace::modulus_switching_trace::{ModulusSwitchingTrace, ModulusSwitchingTraceMLE};
use zkfhe_trace::lookup_trace::large_table::LookupLargeTableTraceMLE;
use zkfhe_trace::lookup_trace::small_table::{LookupTraceMLE as SmallTraceMLE, LookupWitnessHelper};
use zkfhe_trace::packing::{PackableEval, PackableTrace};
use zkfhe_trace::profiling::{
    active_phase_mask, add_lookup_work, add_work, begin, br_phase_definitions, finish, lookup_scope,
    phase_definition, scope, work_counter, BrPhase, State, BR_PHASE_COUNT,
};
use zkfhe_trace::snarks::{ModulusSwitchingParams, SnarkStatistics};

type F97 = Fp<97>;
type FF = Fp<2013265921>;

fn f97(v: u64) -> F97 {
    F97::new(v)
}

fn ff(v: u64) -> FF {
    FF::new(v)
}

#[test]
fn field_operations_exact_values() {
    assert_eq!(f97(50).add(f97(60)).value(), 13);
    assert_eq!(f97(3).sub(f97(5)).value(), 95);
    assert_eq!(f97(10).mul(f97(20)).value(), 6);
    assert_eq!(f97(1).neg().value(), 96);
    assert_eq!(f97(0).neg().value(), 0);
    assert_eq!(f97(3).inverse().unwrap().value(), 65);
    assert!(f97(0).inverse().is_none());
    assert_eq!(f97(1).div(f97(3)).value(), 65);
    assert_eq!(f97(200).value(), 6);
    let mut x = f97(45);
    let low = x.decompose_lsb_bits(7, 3);
    assert_eq!(low.value(), 5);
    assert_eq!(x.value(), 5);
}

#[test]
fn non_prime_modulus_has_no_inverse_for_common_divisors() {
    let x = Fp::<12>::new(8);
    assert!(x.inverse().is_none());
    assert_eq!(Fp::<12>::new(5).inverse().unwrap().value(), 5);
}

#[test]
fn basis_covers_the_field() {
    let basis = Basis::<2013265921>::new(7);
    assert_eq!(basis.bits(), 7);
    assert_eq!(basis.decompose_len(), 5);
    assert_eq!(basis.mask(), 127);
    let basis = Basis::<97>::new(10);
    assert_eq!(basis.decompose_len(), 1);
}

#[test]
fn modulus_switching_parameters() {
    let trace = ModulusSwitchingTrace::<97>::new(2, f97(4));
    assert_eq!(trace.blk_param.value(), 12);
    assert_eq!(trace.helper_upper_bound.value(), 24);
    assert_eq!(trace.a_eq_k_tables.eq_constant.value(), 12);
    assert_eq!(trace.e_eq_2k_tables.eq_constant.value(), 24);
    assert_eq!(trace.e_lt_2k_plus_1_tables.lt_constant.unwrap().value(), 25);
    assert!(trace.input.is_empty());
}

#[test]
fn modulus_switching_field_quotient_without_exact_division() {
    // with q = 5, 2q does not divide 96: k is the field quotient -1 / 10
    let trace = ModulusSwitchingTrace::<97>::new(1, f97(5));
    assert_eq!(trace.blk_param.mul(f97(10)).value(), 96);
    assert_eq!(trace.helper_upper_bound.mul(f97(5)).value(), 96);
}

fn finalized_trace() -> ModulusSwitchingTrace<97> {
    let mut trace = ModulusSwitchingTrace::<97>::new(2, f97(4));
    trace.append_input(&[f97(0), f97(13), f97(50)]);
    trace.append_output(&[f97(0), f97(1), f97(2)]);
    trace.finalize(3);
    trace
}

#[test]
fn modulus_switching_finalize_rows() {
    let trace = finalized_trace();
    let values = |v: &Vec<F97>| v.iter().map(|x| x.value()).collect::<Vec<u64>>();
    assert_eq!(values(&trace.input), vec![0, 13, 50, 0]);
    assert_eq!(values(&trace.output), vec![0, 1, 2, 0]);
    assert_eq!(values(&trace.output_witness), vec![4, 1, 2, 4]);
    // e = a - (2b' - 1) k - 1 with k = 12; the padding row holds k
    assert_eq!(values(&trace.helper), vec![12, 0, 13, 12]);
}

#[test]
fn modulus_switching_extracted_traces() {
    let mle = ModulusSwitchingTraceMLE::from_trace(finalized_trace());
    let lookup = mle.extract_output_eq_output_witness_trace();
    assert_eq!(lookup.num_table_vars, 2);
    let table: Vec<u64> = lookup.table.evaluations.iter().map(|x| x.value()).collect();
    assert_eq!(table, vec![4, 1, 2, 3]);
    for x in 0..4 {
        let i = lookup.index.evaluations[x].value() as usize;
        assert_eq!(lookup.input.evaluations[x], lookup.table.evaluations[i]);
    }
    let lt = mle.extract_helper_lt_2k_plus_1();
    let flags: Vec<u64> = lt.lt_result.evaluations.iter().map(|x| x.value()).collect();
    assert_eq!(flags, vec![1, 1, 1, 1]);
    let a_eq_k = mle.extract_a_eq_k_trace();
    let flags: Vec<u64> = a_eq_k.eq_result.evaluations.iter().map(|x| x.value()).collect();
    assert_eq!(flags, vec![0, 0, 0, 0]);
    let e_eq_2k = mle.extract_e_eq_2k_trace();
    let flags: Vec<u64> = e_eq_2k.eq_result.evaluations.iter().map(|x| x.value()).collect();
    assert_eq!(flags, vec![0, 0, 0, 0]);
}

#[test]
fn profile_of_nested_scopes() {
    let mut state = State::default();
    begin(&mut state, true);
    let total = scope(&mut state, BrPhase::Total, 100);
    let hadamard = scope(&mut state, BrPhase::Hadamard, 150);
    assert_eq!(active_phase_mask(&state), 1 | (1 << 5));
    add_work(&mut state, BrPhase::Hadamard, "rows", 5);
    add_work(&mut state, BrPhase::Hadamard, "rows", 7);
    add_work(&mut state, BrPhase::Hadamard, "columns", 1);
    hadamard.close(&mut state, 250);
    assert_eq!(active_phase_mask(&state), 1);
    total.close(&mut state, 400);
    assert_eq!(active_phase_mask(&state), 0);
    let profile = finish(&mut state);
    assert!(profile.enabled);
    assert_eq!(profile.phases.len(), 2);
    let t = &profile.phases[0];
    assert_eq!(t.phase_id, "br.total");
    assert_eq!(t.parent_id, None);
    assert_eq!((t.calls, t.inclusive_ns, t.exclusive_ns), (1, 300, 200));
    let h = &profile.phases[1];
    assert_eq!(h.phase_id, "br.hadamard");
    assert_eq!(h.parent_id, Some("br.total"));
    assert_eq!((h.calls, h.inclusive_ns, h.exclusive_ns), (1, 100, 100));
    assert_eq!(h.work, vec![("rows", 12), ("columns", 1)]);
}

#[test]
fn profile_lookup_scopes_follow_the_enclosing_lookup() {
    let mut state = State::default();
    begin(&mut state, true);
    let outside = lookup_scope(
        &mut state,
        BrPhase::SparseLookupWitnessCommit,
        BrPhase::AccumulatorLookupWitnessCommit,
        0,
    );
    assert!(!outside.active());
    let acc = scope(&mut state, BrPhase::AccumulatorLookup, 10);
    let inner = lookup_scope(
        &mut state,
        BrPhase::SparseLookupWitnessCommit,
        BrPhase::AccumulatorLookupWitnessCommit,
        20,
    );
    assert!(inner.active());
    add_lookup_work(
        &mut state,
        BrPhase::SparseLookupSumcheck,
        BrPhase::AccumulatorLookupSumcheck,
        "rounds",
        3,
    );
    inner.close(&mut state, 50);
    acc.close(&mut state, 60);
    outside.close(&mut state, 70);
    let profile = finish(&mut state);
    let ids: Vec<&str> = profile.phases.iter().map(|p| p.phase_id).collect();
    assert_eq!(
        ids,
        vec![
            "br.accumulator.lookup",
            "br.accumulator.lookup.witness-commit",
            "br.accumulator.lookup.sumcheck"
        ]
    );
    assert_eq!(profile.phases[2].calls, 0);
    assert_eq!(profile.phases[2].work, vec![("rounds", 3)]);
    assert_eq!(profile.phases[0].exclusive_ns, 20);
}

#[test]
fn disabled_profile_records_nothing() {
    let mut state = State::default();
    begin(&mut state, false);
    let s = scope(&mut state, BrPhase::Total, 5);
    assert!(!s.active());
    add_work(&mut state, BrPhase::Total, "rows", 1);
    s.close(&mut state, 10);
    let profile = finish(&mut state);
    assert!(!profile.enabled);
    assert!(profile.phases.is_empty());
}

#[test]
fn phase_definitions_form_a_tree() {
    let defs = br_phase_definitions();
    assert_eq!(defs.len(), BR_PHASE_COUNT);
    assert_eq!(defs[0].id, "br.total");
    assert_eq!(defs[0].parent_id, None);
    assert_eq!(defs[1].id, "br.input-preparation");
    assert_eq!(defs[1].parent_id, Some("br.total"));
    assert_eq!(defs[51].id, "br.finalize");
    assert_eq!(BrPhase::from_index(51), BrPhase::Finalize);
    assert_eq!(BrPhase::DecompositionInputOpen.index(), 50);
    let d = phase_definition(BrPhase::SparseLookupHelperCommit);
    assert_eq!(d.id, "br.sparse.lookup.helper-commit");
    assert_eq!(d.parent_id, Some("br.sparse.lookup"));
    for (i, def) in defs.iter().enumerate() {
        if let Some(parent) = def.parent_id {
            let j = defs.iter().position(|d| d.id == parent).unwrap();
            assert!(j < i);
        }
    }
}

#[test]
fn range_check_witness_and_helpers_balance() {
    let column = vec![ff(0), ff(1), ff(1), ff(2)];
    let trace = LookupTraceMLE::<2013265921> {
        num_vars: 2,
        range: 3,
        vec_input: vec![Rc::new(DenseMultilinearExtension::from_evaluations_vec(2, column))],
    };
    let witness = LookupWitness::from_trace_mle(trace);
    let table: Vec<u64> = witness.table.evaluations.iter().map(|x| x.value()).collect();
    assert_eq!(table, vec![0, 1, 2, 0]);
    let half = ff(1).div(ff(2));
    let m = &witness.multiplicity.evaluations;
    assert_eq!(m[0], half);
    assert_eq!(m[1].value(), 2);
    assert_eq!(m[2].value(), 1);
    assert_eq!(m[3], half);
    let helper = witness.compute_helper_functions(2, ff(5));
    assert_eq!(helper.num_blocks, 1);
    assert_eq!(helper.phi_functions.len(), 2);
    let phi0: Vec<u64> = helper.phi_functions[0].evaluations.iter().map(|x| x.value()).collect();
    assert_eq!(phi0, vec![5, 6, 7, 5]);
    let mut total = ff(0);
    for h in helper.helper_functions.iter() {
        for v in h.evaluations.iter() {
            total = total.add(*v);
        }
    }
    assert_eq!(total.value(), 0);
    // the packed witness: input, table and multiplicity, padded to four oracles
    assert_eq!(witness.num_oracles(), 3);
    assert_eq!(witness.log_num_oracles(), 2);
    let oracle = witness.generate_oracle();
    assert_eq!(oracle.num_vars, 4);
    assert_eq!(oracle.evaluations.len(), 16);
    assert_eq!(oracle.evaluations[4].value(), 0);
    assert_eq!(oracle.evaluations[6].value(), 2);
    assert_eq!(oracle.evaluations[9].value(), 2);
    assert!(oracle.evaluations[12..].iter().all(|x| x.value() == 0));
}

#[test]
fn range_check_helper_blocks() {
    let a = vec![ff(0), ff(1), ff(2), ff(3)];
    let b = vec![ff(3), ff(3), ff(0), ff(1)];
    let trace = LookupTraceMLE::<2013265921> {
        num_vars: 2,
        range: 4,
        vec_input: vec![
            Rc::new(DenseMultilinearExtension::from_evaluations_vec(2, a)),
            Rc::new(DenseMultilinearExtension::from_evaluations_vec(2, b)),
        ],
    };
    assert_eq!(trace.witness_num_vars(), 4);
    assert_eq!(trace.helper_num_vars(2), 3);
    assert_eq!(LookupTraceMLE::<2013265921>::compute_helper_num_vars(2, 2, 1), 4);
    let witness = LookupWitness::from_trace_mle(trace);
    let m: Vec<u64> = witness.multiplicity.evaluations.iter().map(|x| x.value()).collect();
    assert_eq!(m, vec![2, 2, 1, 3]);
    let helper = witness.compute_helper_functions(2, ff(11));
    assert_eq!(helper.num_blocks, 2);
    assert_eq!(helper.helper_functions.len(), 2);
    // the second block holds only the second input column: 1 / (b(x) + r)
    assert_eq!(helper.helper_functions[1].evaluations[0], ff(14).inverse().unwrap());
    let mut total = ff(0);
    for h in helper.helper_functions.iter() {
        for v in h.evaluations.iter() {
            total = total.add(*v);
        }
    }
    assert_eq!(total.value(), 0);
}

#[test]
fn random_range_check_stays_in_range() {
    let mut rng = rand::rng();
    let trace = LookupTrace::<2013265921>::random(&mut rng, 3, 2, 5);
    assert_eq!(trace.vec_input.len(), 2);
    for column in trace.vec_input.iter() {
        assert_eq!(column.len(), 8);
        assert!(column.iter().all(|x| x.value() < 5));
    }
    let single = LookupTrace::<2013265921>::random(&mut rng, 2, 1, 1);
    assert!(single.vec_input[0].iter().all(|x| x.value() == 0));
    for _ in 0..20 {
        assert!(F97::random(&mut rng).value() < 97);
    }
}

#[test]
fn indexed_lookup_helpers_balance() {
    let mut rng = rand::rng();
    let trace = IndexedLookupTrace::<2013265921>::random(&mut rng, 3, 2);
    for x in 0..8 {
        let i = trace.index[x].value() as usize;
        assert!(i < 4);
        assert_eq!(trace.input[x], trace.table[i]);
    }
    let mle = IndexedLookupTraceMLE::from_trace(trace);
    let witness = mle.compute_witness();
    let mut counted = ff(0);
    for m in witness.multiplicity.evaluations.iter() {
        counted = counted.add(*m);
    }
    assert_eq!(counted.value(), 8);
    let helper = mle.compute_helper_functions(&witness, ff(7), ff(3));
    let mut total = ff(0);
    for v in helper.helper_input.evaluations.iter() {
        total = total.add(*v);
    }
    assert_eq!(total, helper.sum);
}

#[test]
fn indexed_lookup_multiplicity_counts_indices() {
    let table = vec![ff(1), ff(2), ff(1), ff(3)];
    let input = vec![ff(1), ff(1), ff(3), ff(2)];
    let index = vec![ff(0), ff(2), ff(3), ff(1)];
    let mle = IndexedLookupTraceMLE::<2013265921> {
        num_input_vars: 2,
        num_table_vars: 2,
        index: Rc::new(DenseMultilinearExtension::from_evaluations_vec(2, index)),
        input: Rc::new(DenseMultilinearExtension::from_evaluations_vec(2, input)),
        table: Rc::new(DenseMultilinearExtension::from_evaluations_vec(2, table)),
        table_point: None,
    };
    let witness = mle.compute_witness();
    let m: Vec<u64> = witness.multiplicity.evaluations.iter().map(|x| x.value()).collect();
    assert_eq!(m, vec![1, 1, 1, 1]);
    let helper = mle.compute_helper_functions(&witness, ff(7), ff(3));
    let mut total = ff(0);
    for v in helper.helper_input.evaluations.iter() {
        total = total.add(*v);
    }
    assert_eq!(total, helper.sum);
}

#[test]
fn indexed_lookup_with_repeated_table_entries() {
    let mle = IndexedLookupTraceMLE::<2013265921> {
        num_input_vars: 1,
        num_table_vars: 1,
        index: Rc::new(DenseMultilinearExtension::from_evaluations_vec(1, vec![ff(1), ff(1)])),
        input: Rc::new(DenseMultilinearExtension::from_evaluations_vec(1, vec![ff(0), ff(0)])),
        table: Rc::new(DenseMultilinearExtension::from_evaluations_vec(1, vec![ff(0), ff(0)])),
        table_point: None,
    };
    let witness = mle.compute_witness();
    let m: Vec<u64> = witness.multiplicity.evaluations.iter().map(|x| x.value()).collect();
    assert_eq!(m, vec![0, 2]);
    let helper = mle.compute_helper_functions(&witness, ff(5), ff(2));
    let mut total = ff(0);
    for v in helper.helper_input.evaluations.iter() {
        total = total.add(*v);
    }
    assert_eq!(total, helper.sum);
}

#[test]
fn equality_trace_flags_the_constant() {
    let mut rng = rand::rng();
    let basis = Basis::<2013265921>::new(7);
    let c = ff(123456);
    let tables = EQTables::<2013265921>::new(c, &basis);
    let trace = EQTrace::random(&mut rng, 3, &tables);
    assert_eq!(trace.input[0], c);
    assert_eq!(trace.eq_result[0].value(), 1);
    for i in 0..8 {
        let expected = if trace.input[i] == c { 1 } else { 0 };
        assert_eq!(trace.eq_result[i].value(), expected);
        let mut rebuilt: u64 = 0;
        for j in (0..trace.num_bits).rev() {
            rebuilt = (rebuilt << 7) + trace.bits[j][i].value();
        }
        assert_eq!(rebuilt, trace.input[i].value());
    }
}

#[test]
fn statistics_accumulate() {
    let mut stats = SnarkStatistics::default();
    stats.add_prover_pcs_time(5);
    stats.add_prover_pcs_time(7);
    stats.add_verifier_pcs_time(3);
    assert_eq!(stats.prover_pcs_time, 12);
    assert_eq!(stats.verifier_pcs_time, 3);
}

#[test]
fn params_hold_the_code_spec() {
    let spec = vec![1u8, 2, 3];
    let params = ModulusSwitchingParams::new(&spec);
    assert_eq!(params.code_spec, &spec);
}

#[test]
fn ceil_log2_values() {
    assert_eq!(ceil_log2(0), 0);
    assert_eq!(ceil_log2(1), 0);
    assert_eq!(ceil_log2(2), 1);
    assert_eq!(ceil_log2(3), 2);
    assert_eq!(ceil_log2(5), 3);
    assert_eq!(ceil_log2(1024), 10);
}

#[test]
fn multilinear_evaluation_exact_value() {
    let mle = DenseMultilinearExtension::<97>::from_evaluations_vec(1, vec![f97(3), f97(10)]);
    // (1 - r) * 3 + r * 10 at r = 5
    assert_eq!(mle.evaluate(&[f97(5)]).value(), 38);
    let mle = DenseMultilinearExtension::<97>::from_evaluations_vec(2, vec![f97(1), f97(2), f97(3), f97(4)]);
    // f(x0, x1) = 1 + x0 + 2 x1 at (2, 3)
    assert_eq!(mle.evaluate(&[f97(2), f97(3)]).value(), 9);
}

#[test]
fn small_table_witness_and_balance() {
    let a = vec![ff(0), ff(1), ff(2), ff(3)];
    let b = vec![ff(3), ff(3), ff(0), ff(1)];
    let trace = SmallTraceMLE::<2013265921> {
        num_vars: 2,
        range: 4,
        vec_input: vec![
            Rc::new(DenseMultilinearExtension::from_evaluations_vec(2, a)),
            Rc::new(DenseMultilinearExtension::from_evaluations_vec(2, b)),
        ],
    };
    assert_eq!(trace.num_oracles(), 2);
    assert_eq!(trace.num_helper_oracles(1), 2);
    assert_eq!(trace.log_num_oracles(), 1);
    assert_eq!(trace.log_num_helper_oracles(2), 0);
    let witness = trace.compute_witness_pure();
    let table: Vec<u64> = witness.table.iter().map(|x| x.value()).collect();
    assert_eq!(table, vec![0, 1, 2, 3]);
    let m: Vec<u64> = witness.multiplicity.iter().map(|x| x.value()).collect();
    assert_eq!(m, vec![2, 2, 1, 3]);
    let helper: LookupWitnessHelper<2013265921> = trace.compute_helper_functions(1, ff(9), &witness);
    assert_eq!(helper.num_blocks, 2);
    let mut total = ff(0);
    for h in helper.helper_functions.iter() {
        for v in h.evaluations.iter() {
            total = total.add(*v);
        }
    }
    assert_eq!(total, helper.sum);
    let point = [ff(4), ff(6)];
    let eval = trace.evaluate(&point);
    assert_eq!(eval.vec_input_at_r[0], trace.vec_input[0].evaluate(&point));
    assert_eq!(eval.num_evals(), 2);
    assert_eq!(eval.pack_to_vec(), eval.vec_input_at_r);
    let helper_eval = helper.evaluate(&point);
    assert_eq!(helper_eval.sum, helper.sum);
    assert_eq!(helper_eval.helper_functions_at_r.len(), 2);
}

#[test]
fn large_table_limbs() {
    let values = vec![ff(0), ff(1000), ff(255), ff(65535)];
    let trace = LookupLargeTableTraceMLE::<2013265921> {
        num_input_vars: 2,
        input: Rc::new(DenseMultilinearExtension::from_evaluations_vec(2, values)),
        range: 1 << 16,
        range_bits: 16,
    };
    let witness = trace.compute_lookup_large_table_witness(8);
    assert_eq!(witness.decompose_len, 3);
    let limbs = |j: usize| witness.input_bits[j].evaluations.iter().map(|x| x.value()).collect::<Vec<u64>>();
    assert_eq!(limbs(0), vec![0, 232, 255, 255]);
    assert_eq!(limbs(1), vec![0, 3, 0, 255]);
    assert_eq!(limbs(2), vec![0, 0, 0, 0]);
    let lookup = trace.extract_lookup_trace(&witness);
    assert_eq!(lookup.range, 256);
    assert_eq!(lookup.vec_input.len(), 3);
}

#[test]
fn helper_evaluations_pack() {
    let column = vec![ff(0), ff(1), ff(1), ff(2)];
    let trace = LookupTraceMLE::<2013265921> {
        num_vars: 2,
        range: 3,
        vec_input: vec![Rc::new(DenseMultilinearExtension::from_evaluations_vec(2, column))],
    };
    let witness = LookupWitness::from_trace_mle(trace);
    let helper = witness.compute_helper_functions(1, ff(5));
    let eval = helper.evaluate(&[ff(2), ff(3)]);
    assert_eq!(eval.num_evals(), 2);
    assert_eq!(eval.pack_to_vec(), eval.helper_at_r);
    assert_eq!(eval.helper_at_r[1], helper.helper_functions[1].evaluate(&[ff(2), ff(3)]));
    assert_eq!(helper.num_oracles(), 2);
    assert_eq!(helper.pack_to_vec().len(), 8);
}

#[test]
fn small_table_sum_covers_the_whole_table() {
    let trace = SmallTraceMLE::<2013265921> {
        num_vars: 0,
        range: 2,
        vec_input: vec![Rc::new(DenseMultilinearExtension::from_evaluations_vec(0, vec![ff(1)]))],
    };
    let witness = trace.compute_witness_pure();
    let m: Vec<u64> = witness.multiplicity.iter().map(|x| x.value()).collect();
    assert_eq!(m, vec![0, 1]);
    let helper: LookupWitnessHelper<2013265921> = trace.compute_helper_functions(1, ff(1), &witness);
    let half = ff(1).div(ff(2));
    assert_eq!(helper.sum, half);
    assert_eq!(helper.helper_functions[0].evaluations[0], half);
}

#[test]
fn two_additions_of_work_equal_one_of_the_sum() {
    let mut twice = State::default();
    begin(&mut twice, true);
    add_work(&mut twice, BrPhase::Hadamard, "rows", 2);
    add_work(&mut twice, BrPhase::Hadamard, "rows", 3);
    let mut once = State::default();
    begin(&mut once, true);
    add_work(&mut once, BrPhase::Hadamard, "rows", 5);
    assert_eq!(work_counter(&twice, BrPhase::Hadamard, "rows"), 5);
    assert_eq!(work_counter(&once, BrPhase::Hadamard, "rows"), 5);
    let a = finish(&mut twice);
    let b = finish(&mut once);
    assert_eq!(a.phases.len(), 1);
    assert_eq!(a.phases[0].work, b.phases[0].work);
    assert_eq!(a.phases[0].work, vec![("rows", 5)]);
}

#[test]
fn repeated_scope_rounds_count_every_call() {
    let mut state = State::default();
    begin(&mut state, true);
    let times: [(u128, u128); 3] = [(10, 15), (20, 40), (50, 51)];
    for (start, end) in times {
        let s = scope(&mut state, BrPhase::Ntt, start);
        s.close(&mut state, end);
    }
    let profile = finish(&mut state);
    assert_eq!(profile.phases.len(), 1);
    let m = &profile.phases[0];
    assert_eq!(m.phase_id, phase_definition(BrPhase::Ntt).id);
    assert_eq!(m.calls, 3);
    assert_eq!(m.inclusive_ns, 26);
    assert_eq!(m.exclusive_ns, m.inclusive_ns);
    assert!(m.work.is_empty());
}
