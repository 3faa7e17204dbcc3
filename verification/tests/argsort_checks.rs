//! Rank-ordering checks: the planned pass schedule drives a host-side model
//! of the bitonic compare-and-swap network over the padded index buffer, and
//! the resulting index permutation must sort the data.

use prima_undine_opencl::argsort::argsort_plan;
use prima_undine_opencl::shape::Shape;

fn sh(dims: &[u32], batch: u32) -> Shape {
    Shape::new(dims.to_vec(), batch).unwrap()
}

/// Run the whole planned network: per reduction group, the index buffer holds
/// axis coordinates (padding entries sit past the axis and sort last), and
/// each `(block, dist)` pass compare-and-swaps partners `dist` apart, the
/// direction alternating with the `block`-sized stripes.
fn run_argsort(x_shape: &Shape, dim: u32, x: &[f32]) -> Vec<u32> {
    let plan = argsort_plan(x_shape, dim, 64);
    let idx_len = plan.idx_len as usize;
    let len = plan.axis_len;
    let s = plan.skip;
    let n = plan.axis_len;
    let groups = (plan.idx_size / plan.idx_len) as usize;
    let mut out: Vec<u32> = Vec::new();
    for g in 0..groups as u32 {
        let mut idx: Vec<u32> = (0..idx_len as u32).collect();
        let key = |c: u32| -> f32 {
            if c < len {
                x[((g / s) * (s * n) + g % s + c * s) as usize]
            } else {
                f32::INFINITY
            }
        };
        for &(block, dist) in plan.passes.iter() {
            for i in 0..idx_len {
                let partner = i ^ dist as usize;
                if partner > i {
                    let ascending = (i & block as usize) == 0;
                    let a = key(idx[i]);
                    let b = key(idx[partner]);
                    if (a > b) == ascending {
                        idx.swap(i, partner);
                    }
                }
            }
        }
        for c in 0..len as usize {
            out.push(idx[c]);
        }
    }
    out
}

/// Interleave per-group index runs back into flat tensor order.
fn flat_indices(x_shape: &Shape, dim: u32, ranked: &[u32]) -> Vec<u32> {
    let plan = argsort_plan(x_shape, dim, 64);
    let s = plan.skip;
    let n = plan.axis_len;
    let groups = ranked.len() as u32 / n;
    let mut out = vec![0u32; ranked.len()];
    for g in 0..groups {
        for c in 0..n {
            let flat = (g / s) * (s * n) + g % s + c * s;
            let picked = (g / s) * (s * n) + g % s + ranked[(g * n + c) as usize] * s;
            out[flat as usize] = picked;
        }
    }
    out
}

#[test]
fn check_argsort_dims() {
    let x_data = vec![
        10., 17., 6., 8., 16., 18., 14., 15., 4., 3., 13., 11., 9., 12., 2., 1., 5., 7.,
    ];
    let expected = vec![
        vec![
            6., 10., 17., 8., 16., 18., 4., 14., 15., 3., 11., 13., 2., 9., 12., 1., 5., 7.,
        ],
        vec![
            8., 15., 4., 10., 16., 6., 14., 17., 18., 1., 5., 2., 3., 12., 7., 9., 13., 11.,
        ],
        vec![
            10., 17., 6., 8., 16., 18., 14., 15., 4., 3., 13., 11., 9., 12., 2., 1., 5., 7.,
        ],
    ];
    let x = sh(&[3, 3], 2);
    for dim in 0..3u32 {
        let ranked = run_argsort(&x, dim, &x_data);
        let flat = flat_indices(&x, dim, &ranked);
        let sorted: Vec<f32> = flat.iter().map(|&i| x_data[i as usize]).collect();
        assert_eq!(expected[dim as usize], sorted, "axis {}", dim);
    }
}

/// A deterministic shuffle standing in for the reference's random one.
fn shuffle(data: &mut [f32]) {
    let mut state = 0x9e3779b9u64;
    for i in (1..data.len()).rev() {
        state = state.wrapping_mul(6364136223846793005).wrapping_add(1442695040888963407);
        let j = (state >> 33) as usize % (i + 1);
        data.swap(i, j);
    }
}

#[test]
fn check_index_sort_large() {
    let ns: Vec<u32> = vec![
        1, 2, 3, 15, 16, 17, 255, 256, 257, 1023, 1024, 1025, 2047, 2048, 2049, 65534, 65535,
        65536,
    ];
    for n in ns {
        let mut x_data: Vec<f32> = (0..n).map(|v| v as f32).collect();
        let expected = x_data.clone();
        shuffle(&mut x_data);
        let x = sh(&[n], 1);
        let ranked = run_argsort(&x, 0, &x_data);
        let sorted: Vec<f32> = ranked.iter().map(|&i| x_data[i as usize]).collect();
        assert_eq!(expected, sorted, "axis length {}", n);
    }
}

#[test]
fn sorting_sorted_input_is_identity() {
    for n in [1u32, 2, 3, 15, 16, 17, 255, 256, 257, 1023, 1024, 1025] {
        let x_data: Vec<f32> = (0..n).map(|v| v as f32).collect();
        let x = sh(&[n], 1);
        let ranked = run_argsort(&x, 0, &x_data);
        let expected: Vec<u32> = (0..n).collect();
        assert_eq!(expected, ranked, "axis length {}", n);
    }
}
