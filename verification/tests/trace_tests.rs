use zkfhe_trace::basic_ops::row_perm_trace::{PermutationInfo, PermutationSignedInfo, RowPermTrace};
use zkfhe_trace::basis::Basis;
use zkfhe_trace::comparison::eq_trace::EQTables;
use zkfhe_trace::comparison::lt_general_trace::LTGeneralTables;
use zkfhe_trace::comparison::lt_trace::LTTables;
use zkfhe_trace::comparison::table_trace::LessThanPrimeTrace;
use zkfhe_trace::field::Fp;
use zkfhe_trace::mle::{gen_identity_evaluations, DenseMultilinearExtension};

/// The BabyBear prime field.
type FF = Fp<2013265921>;

/// The permutation matrix in `2 * dim` variables: the entry at row `x`, column `y` is one
/// when the permutation maps `x` to `y`.
fn generate_permutation_matrix(dim: usize, permutation_table: &[usize]) -> DenseMultilinearExtension<2013265921> {
    let n = 1usize << dim;
    let mut perm_matrix = vec![FF::zero(); n * n];
    for x in 0..n {
        for y in 0..n {
            if permutation_table[x] == y {
                perm_matrix[x * n + y] = FF::one();
            }
        }
    }
    DenseMultilinearExtension::from_evaluations_vec(dim * 2, perm_matrix)
}

/// The signed permutation matrix: the entry at row `x`, column `y` is `sign[x]` when the
/// permutation maps `x` to `y`.
fn generate_permutation_matrix_signed(
    dim: usize,
    permutation_table: &[usize],
    sign: &[FF],
) -> DenseMultilinearExtension<2013265921> {
    let n = 1usize << dim;
    let mut perm_matrix = vec![FF::zero(); n * n];
    for x in 0..n {
        for y in 0..n {
            if permutation_table[x] == y {
                perm_matrix[x * n + y] = sign[x];
            }
        }
    }
    DenseMultilinearExtension::from_evaluations_vec(dim * 2, perm_matrix)
}

/// Fixes the last (most significant) variables of `mle` to `point`.
fn fix_variables_back(mle: &DenseMultilinearExtension<2013265921>, point: &[FF]) -> Vec<FF> {
    let eq = gen_identity_evaluations(point).evaluations;
    let rest = mle.num_vars - point.len();
    let low = 1usize << rest;
    let mut out = vec![FF::zero(); low];
    for x in 0..eq.len() {
        for y in 0..low {
            out[y] = out[y].add(eq[x].mul(mle.evaluations[x * low + y]));
        }
    }
    out
}

#[test]
fn test_extract_indexed_lookup_in_permutation() {
    let dim = 2 as usize;
    let permutataion_table = vec![1, 2, 3, 0]; // permutation on 4 elements
    let permutation_info = PermutationInfo::<2013265921> {
        log_num: dim,
        permutation_table: permutataion_table.clone(),
        signed: None,
    };

    let perm_matrix_mle = generate_permutation_matrix(dim, &permutation_info.permutation_table);
    let rng = &mut rand::rng();
    let point: Vec<FF> = (0..dim).map(|_| FF::random(rng)).collect();

    let permutation_at_point = fix_variables_back(&perm_matrix_mle, &point);
    let computed_perm_mle = permutation_info.extract_indexed_lookup_trace(&point);

    assert_eq!(permutation_at_point, computed_perm_mle.input.evaluations);
}

#[test]
fn test_fixed_variable() {
    let log_num = 2 as usize;
    let permutation_table = vec![1, 2, 3, 0]; // permutation on 4 elements
    let sign = vec![true, false, true, true];
    let sign = sign
        .iter()
        .map(|&s| match s {
            true => FF::one(),
            false => FF::one().neg(),
        })
        .collect::<Vec<FF>>();

    let sign_info = PermutationSignedInfo::<2013265921> {
        log_dim: log_num,
        permutation: permutation_table.iter().map(|&i| FF::new(i as u32 as u64)).collect::<Vec<FF>>(),
        sign: sign.clone(),
    };
    let permutation_info = PermutationInfo::<2013265921> {
        log_num,
        permutation_table: permutation_table.clone(),
        signed: Some(sign_info),
    };

    let permutation_matrix = generate_permutation_matrix_signed(log_num, &permutation_table, &sign);
    let rng = &mut rand::rng();
    let point: Vec<FF> = (0..log_num).map(|_| FF::random(rng)).collect();

    let permutation_at_point = fix_variables_back(&permutation_matrix, &point);
    let computed_perm_mle = permutation_info.fixed_variable(&point);

    assert_eq!(permutation_at_point, computed_perm_mle.evaluations);
}

#[test]
fn test_permutation_matrix() {
    let mut rng = rand::rng();
    let log_num_rows = 2;
    let log_num_cols = 2;

    let random_trace = RowPermTrace::<2013265921>::random_rotation_left(&mut rng, log_num_rows, log_num_cols);
    let permutation_matrix =
        generate_permutation_matrix(log_num_rows, &random_trace.permutation_info.permutation_table);

    let mut product = vec![FF::zero(); 1 << (log_num_rows + log_num_cols)];
    for x in 0..(1 << log_num_rows) {
        for y in 0..(1 << log_num_rows) {
            let prod_idx = y + (x << log_num_rows);
            for z in 0..(1 << log_num_rows) {
                let perm_idx = z + (x << log_num_rows);
                let input_idx = y + (z << log_num_rows);
                product[prod_idx] = product[prod_idx]
                    .add(permutation_matrix.evaluations[perm_idx].mul(random_trace.input[input_idx]));
            }
        }
    }
    assert_eq!(product, random_trace.output);
}

#[test]
fn eq_trace_test_cmp_table_trace() {
    let basis = Basis::<2013265921>::new(7);
    let eq_tables = EQTables::<2013265921>::new(FF::one().neg(), &basis);
    println!("RHS constant: {:b}", FF::one().neg().value());
    eq_tables.tables.iter().for_each(|table| {
        println!("{:07b}: {}", table.bit_constant.value(), table.bit_constant.value());
    });
}

#[test]
fn lt_general_trace_test_cmp_table_trace() {
    let basis = Basis::<2013265921>::new(7);
    let cmp_table_trace = LTGeneralTables::<2013265921>::new(&basis, None);
    println!("RHS constant: {:b}", FF::one().neg().value() + 1);
    cmp_table_trace.tables.iter().for_each(|table| {
        println!("{:07b}: {}", table.bit_constant.value(), table.bit_constant.value());
    });

    println!("");
    println!("RHS constant: {:b}", FF::one().neg().div(FF::new(1 << 10)).value());
    cmp_table_trace.tables.iter().for_each(|table| {
        println!("{:07b}: {}", table.bit_constant.value(), table.bit_constant.value());
    });
}

#[test]
fn lt_trace_test_cmp_table_trace() {
    let basis = Basis::<2013265921>::new(7);
    let cmp_table_trace = LTTables::<2013265921>::new(&basis, None);
    println!("RHS constant: {:b}", FF::one().neg().value() + 1);
    cmp_table_trace.tables.iter().for_each(|table| {
        println!("{:07b}: {}", table.bit_constant.value(), table.bit_constant.value());
    });

    println!("");
    println!("RHS constant: {:b}", FF::one().neg().div(FF::new(1 << 10)).value());
    cmp_table_trace.tables.iter().for_each(|table| {
        println!("{:07b}: {}", table.bit_constant.value(), table.bit_constant.value());
    });
}

#[test]
fn table_trace_test_cmp_table_trace() {
    let basis = Basis::<2013265921>::new(7);
    let cmp_table_trace = LessThanPrimeTrace::<2013265921>::new(&basis, None);
    println!("RHS constant: {:b}", FF::one().neg().value() + 1);
    cmp_table_trace.tables.iter().for_each(|table| {
        println!("{:07b}: {}", table.gadget_constant.value(), table.gadget_constant.value());
    });

    println!("");
    println!("RHS constant: {:b}", FF::one().neg().div(FF::new(1 << 10)).value());
    cmp_table_trace.tables.iter().for_each(|table| {
        println!("{:07b}: {}", table.gadget_constant.value(), table.gadget_constant.value());
    });
}
