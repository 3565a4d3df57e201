use std::rc::Rc;
use zkfhe_trace::acc_trace::{AccTrace, AccTraceMLE};
use zkfhe_trace::basic_ops::hadamard_trace::{HadamardTraceMLE, SumHadamardTrace, SumHadamardTraceMLE};
use zkfhe_trace::basic_ops::ntt_trace::{NTTTrace, NTTTraceMLE};
use zkfhe_trace::basic_ops::rlwe_trace::{
    is_power_of_two, MonomialTrace, PolynomialTrace, PolynomialTraceMLE, RLWETrace, RLWETraceMLE,
};
use zkfhe_trace::basis::Basis;
use zkfhe_trace::blind_rotation_trace::{BlindRotationParams, BlindRotationTrace, BlindRotationTraceMLE};
use zkfhe_trace::basic_ops::decomp_trace::DecompTraceMLE;
use zkfhe_trace::basic_ops::row_perm_trace::{PermutationInfo, RowPermTrace};
use zkfhe_trace::comparison::eq_trace::{EQTables, EQTablesMLE, EQTraceMLE};
use zkfhe_trace::comparison::lt_general_trace::{LTGeneralTables, LTGeneralTablesMLE};
use zkfhe_trace::comparison::lt_trace::{LTTables, LTTablesMLE, LTTraceMLE};
use zkfhe_trace::field::Fp;
use zkfhe_trace::key_switching_trace::KeySwitchingTraceMLE;
use zkfhe_trace::mle::DenseMultilinearExtension;
use zkfhe_trace::packing::{PackableTrace, SeparatelyPackableEval, SeparatelyPackableTrace};

type FF = Fp<2013265921>;

fn ff(v: u64) -> FF {
    FF::new(v)
}

fn ffs(values: &[u64]) -> Vec<FF> {
    values.iter().map(|v| ff(*v)).collect()
}

fn values(v: &[FF]) -> Vec<u64> {
    v.iter().map(|x| x.value()).collect()
}

fn mle(num_vars: usize, v: &[u64]) -> Rc<DenseMultilinearExtension<2013265921>> {
    Rc::new(DenseMultilinearExtension::from_evaluations_vec(num_vars, ffs(v)))
}

#[test]
fn powers_of_two() {
    assert!(!is_power_of_two(0));
    assert!(is_power_of_two(1));
    assert!(is_power_of_two(2));
    assert!(!is_power_of_two(3));
    assert!(is_power_of_two(64));
    assert!(!is_power_of_two(96));
}

#[test]
fn polynomial_trace_pads_to_a_power_of_two() {
    let mut trace = PolynomialTrace::<2013265921>::new(1, 2);
    trace.append_poly(&ffs(&[1, 2]), &ffs(&[3, 4]));
    trace.append_poly(&ffs(&[5, 6]), &ffs(&[7, 8]));
    trace.append_poly(&ffs(&[9, 10]), &ffs(&[11, 12]));
    trace.finalize(3);
    assert_eq!(values(&trace.poly), vec![1, 2, 5, 6, 9, 10, 0, 0]);
    assert_eq!(values(&trace.ntt), vec![3, 4, 7, 8, 11, 12, 0, 0]);
    // four polynomials already fill the trace
    let mut full = PolynomialTrace::<2013265921>::new(0, 2);
    full.append_poly(&ffs(&[1, 2, 3, 4]), &ffs(&[5, 6, 7, 8]));
    full.finalize(4);
    assert_eq!(full.poly.len(), 4);
    let mle = PolynomialTraceMLE::from_trace(trace);
    assert_eq!(mle.poly.num_vars, 3);
    // at a corner of the cube the evaluation is the entry there
    let eval = mle.evaluate(&[ff(0), ff(1), ff(0)]);
    assert_eq!(eval.poly.value(), 5);
    assert_eq!(eval.ntt.value(), 7);
}

#[test]
fn monomial_trace_appends_and_pads() {
    let mut trace = MonomialTrace::<2013265921>::new(2);
    trace.append(ff(3), ff(1));
    trace.append(ff(5), ff(2013265920));
    trace.append(ff(7), ff(1));
    trace.finalize(3);
    assert_eq!(values(&trace.degree), vec![3, 5, 7, 0]);
    assert_eq!(values(&trace.coefficient), vec![1, 2013265920, 1, 0]);
}

#[test]
fn rlwe_trace_columns_and_packing() {
    let mut trace = RLWETrace::<2013265921>::new(1, 1);
    trace.append((&ffs(&[1, 2]), &ffs(&[3, 4])), (&ffs(&[5, 6]), &ffs(&[7, 8])));
    trace.append((&ffs(&[9, 10]), &ffs(&[11, 12])), (&ffs(&[13, 14]), &ffs(&[15, 16])));
    trace.finalize(2);
    let copy = trace.clone();
    assert_eq!(values(&copy.poly.1), vec![3, 4, 11, 12]);
    let mle = RLWETraceMLE::from_trace(trace);
    assert_eq!(mle.num_vars(), 2);
    assert_eq!(mle.num_oracles(), 2);
    assert_eq!(values(&mle.pack_to_vec()), vec![1, 2, 9, 10, 3, 4, 11, 12]);
    let oracle = mle.generate_oracle();
    assert_eq!(oracle.num_vars, 3);
    let eval = mle.evaluate(&[ff(1), ff(1)]);
    assert_eq!(eval.poly.0.value(), 10);
    assert_eq!(eval.ntt.1.value(), 16);
    // halfway between the two entries 1 and 2: (1 + 2) / 2
    let half = ff(1).div(ff(2));
    let eval = mle.evaluate(&[half, ff(0)]);
    assert_eq!(eval.poly.0, ff(3).div(ff(2)));
}

#[test]
fn sum_hadamard_trace_fills_and_extracts() {
    let mut sum = SumHadamardTrace::<2013265921>::new(2, 1, 0);
    {
        let first = sum.get_trace_mul(0);
        first.append_bit_poly(&ffs(&[1, 0]));
        first.append_bit_ntt(&ffs(&[1, 1]));
        first.rlwe.append((&ffs(&[2, 3]), &ffs(&[4, 5])), (&ffs(&[6, 7]), &ffs(&[8, 9])));
    }
    {
        let second = sum.get_trace_mul(1);
        second.append_bit_poly(&ffs(&[0, 1]));
        second.append_bit_ntt(&ffs(&[1, 2013265920]));
        second.rlwe.append((&ffs(&[1, 1]), &ffs(&[1, 1])), (&ffs(&[2, 0]), &ffs(&[2, 0])));
    }
    sum.add_sum_prod_poly((&ffs(&[2, 1]), &ffs(&[4, 1])));
    sum.add_sum_prod_ntt((&ffs(&[8, 7]), &ffs(&[10, 9])));
    sum.finalize(1);
    assert_eq!(sum.num_oracles(), 8);
    assert_eq!(values(&sum.pack_to_vec()), vec![1, 0, 2, 3, 4, 5, 0, 1, 1, 1, 1, 1, 2, 1, 4, 1]);
    // bits and the sum apart from the key ciphertexts
    assert_eq!(sum.num_bit_oracles(), 4);
    assert_eq!(sum.num_key_oracles(), 4);
    assert_eq!(sum.log_num_bit_oracles(), 2);
    assert_eq!(values(&sum.pack_bit_to_vec()), vec![1, 0, 0, 1, 2, 1, 4, 1]);
    assert_eq!(values(&sum.pack_key_to_vec()), vec![2, 3, 4, 5, 1, 1, 1, 1]);
    let bit_oracle = sum.generate_bit_oracle();
    assert_eq!(bit_oracle.num_vars, 3);
    assert_eq!(values(&bit_oracle.evaluations), vec![1, 0, 0, 1, 2, 1, 4, 1]);
    let key_oracle = sum.generate_key_oracle();
    assert_eq!(key_oracle.num_vars, 3);
    let mle = SumHadamardTraceMLE::from_trace(sum);
    assert_eq!(mle.num_bit_poly(), 2);
    assert_eq!(mle.log_num_helper_poly(1), 1);
    assert_eq!(mle.log_num_helper_poly(2), 0);
    let normal = mle.extract_lookup_trace_mle_normal_table(2);
    assert_eq!(normal.vec_input.len(), 2);
    assert_eq!(values(&normal.vec_input[1].evaluations), vec![0, 1]);
    let small = mle.extract_lookup_trace_mle_small_table(2);
    assert_eq!(small.num_vars, 1);
    let eval = mle.evaluate(&[ff(1)]);
    assert_eq!(eval.vec_hadamard.len(), 2);
    assert_eq!(eval.vec_hadamard[0].rlwe.poly.1.value(), 5);
    assert_eq!(eval.sum_prod.ntt.0.value(), 7);
    assert_eq!(eval.num_evals(), 8);
    assert_eq!(values(&eval.pack_poly_to_vec()), vec![0, 3, 5, 1, 1, 1, 1, 1]);
    assert_eq!(values(&eval.pack_ntt_to_vec()), vec![1, 7, 9, 2013265920, 0, 0, 7, 9]);
    assert_eq!(eval.num_bit_evals(), 4);
    assert_eq!(eval.num_key_evals(), 4);
    assert_eq!(eval.log_num_key_evals(), 2);
    assert_eq!(values(&eval.pack_bit_ntt_to_vec()), vec![1, 2013265920, 7, 9]);
    assert_eq!(values(&eval.pack_key_ntt_to_vec()), vec![7, 9, 0, 0]);
}

#[test]
fn hadamard_bits_index_the_comparison_tables() {
    let basis = Basis::<2013265921>::new(7);
    let tables = LTTablesMLE::from_tables(LTTables::<2013265921>::new(&basis, Some(ff(1000))));
    let d = tables.decomp_len;
    let mut vec_hadamard = Vec::new();
    for i in 0..2 * d {
        let bit = PolynomialTraceMLE::<2013265921> {
            log_coeff_count: 1,
            log_num_poly: 0,
            poly: mle(1, &[(i as u64) % 128, (3 * i as u64 + 1) % 128]),
            ntt: mle(1, &[0, 0]),
        };
        let rlwe = RLWETraceMLE::<2013265921> {
            log_coeff_count: 1,
            log_num_poly: 0,
            poly: (mle(1, &[0, 0]), mle(1, &[0, 0])),
            ntt: (mle(1, &[0, 0]), mle(1, &[0, 0])),
        };
        vec_hadamard.push(HadamardTraceMLE { log_coeff_count: 1, log_num_poly: 0, bit, rlwe });
    }
    let sum = SumHadamardTraceMLE::<2013265921> {
        log_coeff_count: 1,
        log_num_poly: 0,
        num_hadamard: 2 * d,
        vec_hadamard,
        sum_prod: RLWETraceMLE {
            log_coeff_count: 1,
            log_num_poly: 0,
            poly: (mle(1, &[0, 0]), mle(1, &[0, 0])),
            ntt: (mle(1, &[0, 0]), mle(1, &[0, 0])),
        },
    };
    let lookups = sum.extract_indexed_lookup_trace_mle(&tables);
    assert_eq!(lookups.len(), 2 * d);
    for (k, lookup) in lookups.iter().enumerate() {
        let table = &tables.tables[k % d];
        assert_eq!(lookup.num_table_vars, 7);
        for x in 0..2 {
            let index = lookup.index.evaluations[x].value() as usize;
            assert_eq!(lookup.input.evaluations[x], table.evaluations[index]);
        }
    }
}

/// Two rounds: the initial accumulator, one intermediate accumulator, the final one.
fn two_round_acc_trace() -> AccTrace<2013265921> {
    let mut acc = AccTrace::<2013265921>::new(1, 1);
    let zeros = ffs(&[0, 0]);
    acc.append_acc_initial((&ffs(&[1, 2]), &ffs(&[3, 4])), (&zeros, &zeros));
    acc.append_monomial(&ffs(&[0, 1]), &zeros, ff(1), ff(1));
    acc.append_acc_round((&ffs(&[5, 6]), &ffs(&[7, 8])), (&zeros, &zeros));
    acc.append_monomial(&ffs(&[1, 0]), &zeros, ff(0), ff(1));
    acc.append_acc_output((&ffs(&[9, 10]), &ffs(&[11, 12])), (&zeros, &zeros));
    acc.append_product((&ffs(&[20, 21]), &ffs(&[22, 23])), (&zeros, &zeros));
    acc.append_product((&ffs(&[24, 25]), &ffs(&[26, 27])), (&zeros, &zeros));
    acc.append_external_product_input((&ffs(&[19, 19]), &ffs(&[19, 19])), (&zeros, &zeros));
    acc.append_external_product_input((&ffs(&[19, 19]), &ffs(&[19, 19])), (&zeros, &zeros));
    acc
}

#[test]
fn finalized_accumulator_is_the_rotated_input() {
    let mut acc = two_round_acc_trace();
    assert_eq!(values(&acc.input_acc.poly.0), vec![1, 2, 5, 6]);
    assert_eq!(values(&acc.output_acc.poly.0), vec![5, 6, 9, 10]);
    acc.finalize(2);
    // the output with its last row corrected by initial - final: the input rotated up
    assert_eq!(values(&acc.input_acc_permuted.poly.0), vec![5, 6, 1, 2]);
    assert_eq!(values(&acc.input_acc_permuted.poly.1), vec![7, 8, 3, 4]);
    assert_eq!(acc.permutation_info.permutation_table, vec![1, 0]);
    assert_eq!(values(&acc.monomial_representation.degree), vec![1, 0]);
    let mle = AccTraceMLE::from_trace(acc);
    assert_eq!(mle.num_oracles(), 4);
    assert_eq!(values(&mle.pack_to_vec()), vec![1, 2, 5, 6, 3, 4, 7, 8, 20, 21, 24, 25, 22, 23, 26, 27]);
    let hadamard = mle.extract_hadamard_trace();
    assert_eq!(hadamard.num_hadamard, 1);
    assert_eq!(values(&hadamard.vec_hadamard[0].bit.poly.evaluations), vec![0, 1, 1, 0]);
    let eval = mle.evaluate(&[ff(1), ff(0)]);
    assert_eq!(eval.initial_acc.poly.0.value(), 2);
    assert_eq!(eval.input_acc.poly.0.value(), 2);
    assert_eq!(eval.monomial_times_acc.poly.0.value(), 21);
    assert_eq!(eval.external_product_input.poly.0.value(), 19);
    assert_eq!(eval.num_evals(), 4);
    assert_eq!(values(&eval.pack_poly_to_vec()), vec![2, 4, 21, 23]);
    let sum = eval.extract_hadamard_eval();
    assert_eq!(sum.vec_hadamard[0].bit.poly.value(), 1);
    assert_eq!(sum.sum_prod.poly.1.value(), 23);
}

#[test]
fn accumulator_of_three_rounds_is_padded() {
    let mut acc = AccTrace::<2013265921>::new(1, 2);
    let zeros = ffs(&[0, 0]);
    acc.append_acc_initial((&ffs(&[1, 1]), &ffs(&[1, 1])), (&zeros, &zeros));
    acc.append_acc_round((&ffs(&[2, 2]), &ffs(&[2, 2])), (&zeros, &zeros));
    acc.append_acc_round((&ffs(&[3, 3]), &ffs(&[3, 3])), (&zeros, &zeros));
    acc.append_acc_output((&ffs(&[4, 4]), &ffs(&[4, 4])), (&zeros, &zeros));
    acc.finalize(3);
    assert_eq!(values(&acc.input_acc.poly.0), vec![1, 1, 2, 2, 3, 3, 0, 0]);
    assert_eq!(values(&acc.input_acc_permuted.poly.0), vec![2, 2, 3, 3, 1, 1, 0, 0]);
    assert_eq!(acc.permutation_info.permutation_table, vec![1, 2, 0, 3]);
}

#[test]
fn blind_rotation_parameters_and_trace() {
    let params = BlindRotationParams::new(10, 9, 3, 128);
    assert_eq!(params.num_bit_poly, 6);
    assert_eq!(params.num_key_ntt, 12);
    let mut hadamard = SumHadamardTrace::<2013265921>::new(1, 1, 1);
    {
        let h = hadamard.get_trace_mul(0);
        h.append_bit_poly(&ffs(&[1, 0, 0, 1]));
        h.append_bit_ntt(&ffs(&[0, 0, 0, 0]));
        h.rlwe.append((&ffs(&[5, 6, 7, 8]), &ffs(&[0, 0, 0, 0])), (&ffs(&[0, 0, 0, 0]), &ffs(&[0, 0, 0, 0])));
    }
    hadamard.add_sum_prod_poly((&ffs(&[1, 1, 1, 1]), &ffs(&[2, 2, 2, 2])));
    hadamard.add_sum_prod_ntt((&ffs(&[0, 0, 0, 0]), &ffs(&[0, 0, 0, 0])));
    let mut trace = BlindRotationTrace { log_coeff_count: 1, log_num_round: 1, acc_trace: two_round_acc_trace(), hadamard_trace: hadamard };
    trace.finalize(2);
    assert_eq!(trace.num_oracles(), 5 + 4);
    let mle = BlindRotationTraceMLE::from_trace(trace);
    let eval = mle.evaluate(&[ff(0), ff(1)]);
    // the output accumulator is the input accumulator plus the sum of the products
    assert_eq!(eval.acc_trace.input_acc.poly.0.value(), 5);
    assert_eq!(eval.hadamard_trace.sum_prod.poly.0.value(), 1);
    assert_eq!(eval.output_acc.poly.0.value(), 6);
    assert_eq!(eval.num_evals(), 9);
    assert_eq!(eval.pack_ntt_to_vec().len(), 9);
}

#[test]
fn key_switching_decompositions() {
    let basis = Basis::<2013265921>::new(7);
    let lt_tables = LTTablesMLE::from_tables(LTTables::<2013265921>::new(&basis, None));
    let d = lt_tables.decomp_len;
    let poly = |v: u64| PolynomialTraceMLE::<2013265921> {
        log_coeff_count: 1,
        log_num_poly: 0,
        poly: mle(1, &[v, v + 1]),
        ntt: mle(1, &[0, 0]),
    };
    let mut vec_hadamard = Vec::new();
    for i in 0..2 * d {
        vec_hadamard.push(HadamardTraceMLE {
            log_coeff_count: 1,
            log_num_poly: 0,
            bit: poly(100 + i as u64),
            rlwe: RLWETraceMLE {
                log_coeff_count: 1,
                log_num_poly: 0,
                poly: (mle(1, &[0, 0]), mle(1, &[0, 0])),
                ntt: (mle(1, &[0, 0]), mle(1, &[0, 0])),
            },
        });
    }
    let trace = KeySwitchingTraceMLE::<2013265921> {
        log_lwe_dim: 1,
        log_rlwe_dim: 1,
        log_coeff_count: 1,
        log_trace: 0,
        decomposed_polys: vec![poly(7), poly(8)],
        hadamard_trace: SumHadamardTraceMLE {
            log_coeff_count: 1,
            log_num_poly: 0,
            num_hadamard: 2 * d,
            vec_hadamard,
            sum_prod: RLWETraceMLE {
                log_coeff_count: 1,
                log_num_poly: 0,
                poly: (mle(1, &[0, 0]), mle(1, &[0, 0])),
                ntt: (mle(1, &[0, 0]), mle(1, &[0, 0])),
            },
        },
        permutation_trace: None,
        lt_tables,
    };
    let decomps = trace.extract_decomposition_traces();
    assert_eq!(decomps.len(), 2);
    assert_eq!(decomps[1].log_num, 1);
    assert_eq!(decomps[1].decomp_len, d);
    assert_eq!(decomps[1].basis_bits, 7);
    assert_eq!(values(&decomps[1].input.evaluations), vec![8, 9]);
    assert_eq!(values(&decomps[1].bits[0].evaluations), vec![100 + d as u64, 101 + d as u64]);
}

#[test]
fn ntt_trace_commits_to_the_coefficients() {
    let mut trace = NTTTrace::<2013265921>::new(1, 1, ffs(&[1, 2013265920]));
    trace.coefficients = ffs(&[1, 2, 3, 4]);
    trace.evaluations = ffs(&[3, 2013265920, 7, 2013265920]);
    let commit = trace.get_commit_poly();
    assert_eq!(commit.num_vars, 2);
    assert_eq!(values(&commit.evaluations), vec![1, 2, 3, 4]);
    let mle = NTTTraceMLE::from_trace(trace);
    assert_eq!(mle.num_oracles(), 1);
    assert_eq!(values(&mle.pack_to_vec()), vec![1, 2, 3, 4]);
    assert_eq!(values(&mle.evaluations.evaluations), vec![3, 2013265920, 7, 2013265920]);
    assert_eq!(values(&mle.ntt_table), vec![1, 2013265920]);
}

#[test]
fn comparison_limbs_look_up_their_tables() {
    let basis = Basis::<2013265921>::new(7);
    let input = mle(1, &[42, 300]);
    let eq_tables = EQTablesMLE::from_tables(EQTables::<2013265921>::new(ff(42), &basis));
    let eq = EQTraceMLE::from(&input, &eq_tables);
    assert_eq!(values(&eq.eq_result.evaluations), vec![1, 0]);
    let eq_lookups = eq.extract_eq_lookup_traces(&eq_tables);
    assert_eq!(eq_lookups.len(), eq_tables.decomp_len);
    let lt_tables = LTTablesMLE::from_tables(LTTables::<2013265921>::new(&basis, Some(ff(100))));
    let lt = LTTraceMLE::from(&input, &lt_tables);
    assert_eq!(values(&lt.lt_result.evaluations), vec![1, 0]);
    let lt_lookups = lt.extract_lt_lookup_traces(&lt_tables);
    for lookup in eq_lookups.iter().chain(lt_lookups.iter()) {
        for x in 0..2 {
            let index = lookup.index.evaluations[x].value() as usize;
            assert_eq!(lookup.input.evaluations[x], lookup.table.evaluations[index]);
        }
    }
    // the limbs of 300 in base 2^7 are 44, 2, 0, ...
    assert_eq!(lt.bits[0].evaluations[1].value(), 44);
    assert_eq!(lt.bits[1].evaluations[1].value(), 2);
}

#[test]
fn decomposition_limbs_look_up_general_tables() {
    let basis = Basis::<2013265921>::new(7);
    let tables = LTGeneralTablesMLE::from_tables(LTGeneralTables::<2013265921>::new(&basis, Some(ff(1 << 20))));
    let d = tables.decomp_len;
    let decomp = DecompTraceMLE::<2013265921> {
        log_num: 1,
        basis_bits: 7,
        decomp_len: d,
        input: mle(1, &[0, 0]),
        bits: (0..d).map(|_| mle(1, &[0, 0])).collect(),
    };
    assert_eq!(decomp.num_lookup(), d);
    let lookups = decomp.extract_lt_general_lookup_trace(&tables);
    assert_eq!(lookups.len(), d);
    for (i, lookup) in lookups.iter().enumerate() {
        assert_eq!(lookup.input.evaluations[0], tables.tables[i].evaluations[0]);
        assert_eq!(lookup.num_input_vars, 1);
    }
}

#[test]
fn sample_extraction_permutation_with_signs() {
    let perm = PermutationInfo::<2013265921>::new_sample_extraction_permutation(4);
    assert_eq!(perm.permutation_table, vec![0, 3, 2, 1]);
    let signs = &perm.signed.as_ref().unwrap().sign;
    assert_eq!(values(signs), vec![1, 2013265920, 2013265920, 2013265920]);
    let out = perm.permute_signed(&ffs(&[10, 20, 30, 40]));
    assert_eq!(out, vec![ff(10), ff(40).neg(), ff(30).neg(), ff(20).neg()]);
}

#[test]
fn key_switching_and_batched_row_permutations() {
    let mut rng = rand::rng();
    let ks = RowPermTrace::<2013265921>::random_ks_permutation(&mut rng, 2, 1, 1);
    assert_eq!(ks.permutation_info.permutation_table, vec![0, 3, 2, 1]);
    let sign = &ks.permutation_info.signed.as_ref().unwrap().sign;
    for k in 0..8 {
        let row = ks.permutation_info.permutation_table[k / 2];
        assert_eq!(ks.output[k], ks.input[row * 2 + k % 2].mul(sign[k / 2]));
    }
    let a = RowPermTrace::<2013265921>::random_rotation_left(&mut rng, 2, 0);
    let b = RowPermTrace::<2013265921>::random_rotation_left(&mut rng, 2, 0);
    let (a_input, b_input) = (a.input.clone(), b.input.clone());
    let batched = RowPermTrace::from_batch_trace(vec![a, b]);
    assert_eq!(batched.log_num_rows, 2);
    assert_eq!(batched.log_num_cols, 1);
    for row in 0..4 {
        assert_eq!(batched.input[row * 2], a_input[row]);
        assert_eq!(batched.input[row * 2 + 1], b_input[row]);
    }
}

#[test]
fn key_switching_trace_carries_the_key_switching_signs() {
    let mut rng = rand::rng();
    let trace = RowPermTrace::<2013265921>::random_ks_permutation(&mut rng, 3, 0, 1);
    let expected = PermutationInfo::<2013265921>::new_ks_permutation(8, 2);
    assert_eq!(trace.permutation_info.permutation_table, expected.permutation_table);
    assert_eq!(trace.permutation_info.permutation_table, vec![0, 7, 6, 5, 4, 3, 2, 1]);
    let got = trace.permutation_info.signed.as_ref().unwrap();
    let want = expected.signed.as_ref().unwrap();
    assert_eq!(got.log_dim, 3);
    assert_eq!(values(&got.sign), values(&want.sign));
    let m = 2013265920;
    assert_eq!(values(&got.sign), vec![1, 1, m, 1, m, 1, m, 1]);
    assert_eq!(values(&got.permutation), vec![0, 7, 6, 5, 4, 3, 2, 1]);
    assert_eq!(trace.output, expected.permute_signed(&trace.input));
}

#[test]
fn inverse_permutation_undoes_permute() {
    let p = PermutationInfo::<2013265921> { log_num: 2, permutation_table: vec![2, 0, 3, 1], signed: None };
    let q = p.get_inverse_permutation();
    assert_eq!(q.log_num, 2);
    assert!(q.signed.is_none());
    assert_eq!(q.permutation_table, vec![1, 3, 0, 2]);
    let v = vec![10u64, 20, 30, 40];
    assert_eq!(p.permute(&v), vec![30, 10, 40, 20]);
    assert_eq!(q.permute(&p.permute(&v)), v);
    assert_eq!(p.permute(&q.permute(&v)), v);
}
