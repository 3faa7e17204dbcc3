//! Reduction dispatch checks: the planned group size, kernel variant and
//! instance geometry drive a host-side model of the grid-stride accumulation
//! and in-group tree reduction, held against reference results across the
//! whole range of axis lengths.

use prima_undine_opencl::reduction::{arg_reduce_launch, reduce_launch, select_group_size, ReduceLaunch};
use prima_undine_opencl::shape::Shape;

fn sh(dims: &[u32], batch: u32) -> Shape {
    Shape::new(dims.to_vec(), batch).unwrap()
}

/// Flat index of element `i` of reduction instance `g`, from the plan's
/// stride and axis length.
fn elem_index(plan: &ReduceLaunch, g: u32, i: u32) -> usize {
    let s = plan.lower;
    let n = plan.axis;
    ((g / s) * (s * n) + g % s + i * s) as usize
}

/// Grid-stride accumulation plus tree reduction for a sum.
fn run_sum(plan: &ReduceLaunch, x: &[f32]) -> Vec<f32> {
    let k = plan.group_size as usize;
    let n = plan.axis;
    let mut out = vec![0f32; plan.groups as usize];
    for g in 0..plan.groups {
        let mut lanes = vec![0f32; k];
        for lane in 0..k {
            let mut i = lane as u32;
            while i < n {
                lanes[lane] += x[elem_index(plan, g, i)];
                i += k as u32;
            }
        }
        let mut width = k / 2;
        while width >= 1 {
            for lane in 0..width {
                lanes[lane] += lanes[lane + width];
            }
            width /= 2;
        }
        out[g as usize] = lanes[0];
    }
    out
}

/// Grid-stride plus tree reduction for an arg-min, first occurrence winning
/// ties.
fn run_argmin(plan: &ReduceLaunch, x: &[f32]) -> Vec<u32> {
    let k = plan.group_size as usize;
    let n = plan.axis;
    let mut out = vec![0u32; plan.groups as usize];
    for g in 0..plan.groups {
        let mut lanes: Vec<(f32, u32)> = vec![(f32::INFINITY, u32::MAX); k];
        for lane in 0..k {
            let mut i = lane as u32;
            while i < n {
                let v = x[elem_index(plan, g, i)];
                if v < lanes[lane].0 {
                    lanes[lane] = (v, i);
                }
                i += k as u32;
            }
        }
        let mut width = k / 2;
        while width >= 1 {
            for lane in 0..width {
                let (rv, ri) = lanes[lane + width];
                let (lv, li) = lanes[lane];
                if rv < lv || (rv == lv && ri < li) {
                    lanes[lane] = (rv, ri);
                }
            }
            width /= 2;
        }
        out[g as usize] = lanes[0].1;
    }
    out
}

/// A deterministic shuffle standing in for the reference's random one.
fn shuffle(data: &mut [f32]) {
    let mut state = 0x2545f491u64;
    for i in (1..data.len()).rev() {
        state = state.wrapping_mul(6364136223846793005).wrapping_add(1442695040888963407);
        let j = (state >> 33) as usize % (i + 1);
        data.swap(i, j);
    }
}

#[test]
fn group_size_is_smallest_power_of_two_capped() {
    let cases: Vec<(u32, u32, u32)> = vec![
        (1, 1, 0),
        (2, 2, 1),
        (3, 4, 2),
        (15, 16, 4),
        (16, 16, 4),
        (17, 32, 5),
        (255, 256, 8),
        (256, 256, 8),
        (257, 256, 8),
        (1023, 256, 8),
        (1024, 256, 8),
        (1025, 256, 8),
        (2047, 256, 8),
        (2048, 256, 8),
        (2049, 256, 8),
        (65534, 256, 8),
        (65535, 256, 8),
        (65536, 256, 8),
        (65537, 256, 8),
    ];
    for (n, size, variant) in cases {
        assert_eq!((size, variant), select_group_size(n), "axis length {}", n);
    }
}

#[test]
fn check_sum_fw() {
    let x_data = vec![
        1., 2., 3., 4., 5., 6., 7., 8., -1., -2., -3., -4., -5., -6., -7., -8.,
    ];
    let shapes = vec![
        sh(&[1, 2, 2], 2),
        sh(&[2, 1, 2], 2),
        sh(&[2, 2], 2),
        sh(&[2, 2, 2], 2),
    ];
    let y_data = vec![
        vec![3., 7., 11., 15., -3., -7., -11., -15.],
        vec![4., 6., 12., 14., -4., -6., -12., -14.],
        vec![6., 8., 10., 12., -6., -8., -10., -12.],
        vec![
            1., 2., 3., 4., 5., 6., 7., 8., -1., -2., -3., -4., -5., -6., -7., -8.,
        ],
    ];
    let x = sh(&[2, 2, 2], 2);
    for i in 0..4 {
        let plan = reduce_launch(&x, &shapes[i], i as u32);
        assert_eq!(y_data[i], run_sum(&plan, &x_data));
    }
}

#[test]
fn check_sum_fw_2() {
    let ns: Vec<u32> = vec![
        1, 2, 3, 15, 16, 17, 255, 256, 257, 1023, 1024, 1025, 2047, 2048, 2049, 65535, 65536,
        65537,
    ];
    for n in ns {
        let x_data = vec![1f32; n as usize];
        let x = sh(&[n], 1);
        let y = sh(&[], 1);
        let plan = reduce_launch(&x, &y, 0);
        assert_eq!(vec![n as f32], run_sum(&plan, &x_data));
    }
}

#[test]
fn check_argmin_dims() {
    let x_data = vec![
        3., 4., 5., 0., 1., 2., 6., 7., 8., 0., -1., -2., -6., -7., -8., -3., -4., -5.,
    ];
    let expected: Vec<Vec<u32>> = vec![
        vec![0, 0, 0, 2, 2, 2],
        vec![1, 1, 1, 1, 1, 1],
        vec![0, 0, 0, 0, 0, 0, 0, 0, 0, 0, 0, 0, 0, 0, 0, 0, 0, 0],
    ];
    let x = sh(&[3, 3], 2);
    for dim in 0..3u32 {
        let plan = arg_reduce_launch(&x, dim);
        assert_eq!(expected[dim as usize], run_argmin(&plan, &x_data));
    }
}

#[test]
fn check_argmin_large() {
    let ns: Vec<u32> = vec![
        1, 2, 3, 15, 16, 17, 255, 256, 257, 1023, 1024, 1025, 2047, 2048, 2049, 65534, 65535,
        65536,
    ];
    for n in ns {
        let mut x_data: Vec<f32> = (0..n).map(|v| v as f32).collect();
        shuffle(&mut x_data);
        let pos = x_data.iter().position(|&v| v == 0.).unwrap() as u32;
        let x = sh(&[n], 1);
        let plan = arg_reduce_launch(&x, 0);
        assert_eq!(vec![pos], run_argmin(&plan, &x_data));
    }
}

#[test]
fn check_argmin_multiple_large() {
    let ns: Vec<u32> = vec![
        1, 2, 3, 15, 16, 17, 255, 256, 257, 1023, 1024, 1025, 2047, 2048, 2049, 65534, 65535,
        65536,
    ];
    for n in ns {
        let mut x_data: Vec<f32> = (0..n).map(|v| v as f32).collect();
        for i in 0..std::cmp::min(10, n as usize) {
            x_data[i] = 0.;
        }
        shuffle(&mut x_data);
        let pos = x_data.iter().position(|&v| v == 0.).unwrap() as u32;
        let x = sh(&[n], 1);
        let plan = arg_reduce_launch(&x, 0);
        assert_eq!(vec![pos], run_argmin(&plan, &x_data));
    }
}

#[test]
fn logsumexp_of_constants_is_constant_plus_ln() {
    for n in [1u32, 2, 3, 16, 17, 255, 256, 257, 1025] {
        let kval = 2.5f32;
        let x_data = vec![kval; n as usize];
        let x = sh(&[n], 1);
        let y = sh(&[], 1);
        let plan = reduce_launch(&x, &y, 0);
        // The kernel folds exp(v - max) in the same grid-stride-plus-tree
        // shape as a sum; with constant inputs that is n * 1 under the max.
        let shifted: Vec<f32> = x_data.iter().map(|v| (v - kval).exp()).collect();
        let folded = run_sum(&plan, &shifted);
        let got = kval + folded[0].ln();
        let want = kval + (n as f32).ln();
        assert!((got - want).abs() <= 1e-4, "n {}: {} vs {}", n, got, want);
    }
}

/// Max, min and arg-max across the whole range of axis lengths, over a
/// shuffled permutation with a known extremum.
#[test]
fn value_reductions_across_sizes() {
    let ns: Vec<u32> = vec![
        1, 2, 3, 15, 16, 17, 255, 256, 257, 1023, 1024, 1025, 2047, 2048, 2049, 65534, 65535,
        65536, 65537,
    ];
    for n in ns {
        let mut x_data: Vec<f32> = (0..n).map(|v| v as f32).collect();
        shuffle(&mut x_data);
        let x = sh(&[n], 1);
        let plan = reduce_launch(&x, &sh(&[], 1), 0);
        let k = plan.group_size as usize;
        let mut max_lanes = vec![f32::NEG_INFINITY; k];
        let mut min_lanes = vec![f32::INFINITY; k];
        for lane in 0..k {
            let mut i = lane as u32;
            while i < n {
                let v = x_data[elem_index(&plan, 0, i)];
                if v > max_lanes[lane] {
                    max_lanes[lane] = v;
                }
                if v < min_lanes[lane] {
                    min_lanes[lane] = v;
                }
                i += k as u32;
            }
        }
        let mut width = k / 2;
        while width >= 1 {
            for lane in 0..width {
                max_lanes[lane] = max_lanes[lane].max(max_lanes[lane + width]);
                min_lanes[lane] = min_lanes[lane].min(min_lanes[lane + width]);
            }
            width /= 2;
        }
        assert_eq!(max_lanes[0], (n - 1) as f32, "max over {}", n);
        assert_eq!(min_lanes[0], 0., "min over {}", n);
        let arg_plan = arg_reduce_launch(&x, 0);
        let pos_max = x_data.iter().position(|&v| v == (n - 1) as f32).unwrap() as u32;
        let argmax = run_argmax(&arg_plan, &x_data);
        assert_eq!(vec![pos_max], argmax, "arg-max over {}", n);
    }
}

/// Grid-stride plus tree reduction for an arg-max, first occurrence winning
/// ties.
fn run_argmax(plan: &ReduceLaunch, x: &[f32]) -> Vec<u32> {
    let k = plan.group_size as usize;
    let n = plan.axis;
    let mut out = vec![0u32; plan.groups as usize];
    for g in 0..plan.groups {
        let mut lanes: Vec<(f32, u32)> = vec![(f32::NEG_INFINITY, u32::MAX); k];
        for lane in 0..k {
            let mut i = lane as u32;
            while i < n {
                let v = x[elem_index(plan, g, i)];
                if v > lanes[lane].0 {
                    lanes[lane] = (v, i);
                }
                i += k as u32;
            }
        }
        let mut width = k / 2;
        while width >= 1 {
            for lane in 0..width {
                let (rv, ri) = lanes[lane + width];
                let (lv, li) = lanes[lane];
                if rv > lv || (rv == lv && ri < li) {
                    lanes[lane] = (rv, ri);
                }
            }
            width /= 2;
        }
        out[g as usize] = lanes[0].1;
    }
    out
}

#[test]
fn check_logsumexp_fw() {
    let x_data = vec![
        1., 2., 3., 4., 5., 6., 7., 8., -1., -2., -3., -4., -5., -6., -7., -8.,
    ];
    let y_data: Vec<Vec<f32>> = vec![
        vec![
            2.31326169, 4.31326169, 6.31326169, 8.31326169, -0.68673831, -2.68673831,
            -4.68673831, -6.68673831,
        ],
        vec![
            3.12692801, 4.12692801, 7.12692801, 8.12692801, -0.87307199, -1.87307199,
            -4.87307199, -5.87307199,
        ],
        vec![
            5.01814993, 6.01814993, 7.01814993, 8.01814993, -0.98185007, -1.98185007,
            -2.98185007, -3.98185007,
        ],
        vec![
            1., 2., 3., 4., 5., 6., 7., 8., -1., -2., -3., -4., -5., -6., -7., -8.,
        ],
    ];
    let x = sh(&[2, 2, 2], 2);
    let shapes = vec![
        sh(&[1, 2, 2], 2),
        sh(&[2, 1, 2], 2),
        sh(&[2, 2], 2),
        sh(&[2, 2, 2], 2),
    ];
    for dim in 0..4usize {
        let plan = reduce_launch(&x, &shapes[dim], dim as u32);
        let mut got = vec![0f32; plan.groups as usize];
        for g in 0..plan.groups {
            let mut m = f32::NEG_INFINITY;
            for i in 0..plan.axis {
                m = m.max(x_data[elem_index(&plan, g, i)]);
            }
            let mut s = 0f32;
            for i in 0..plan.axis {
                s += (x_data[elem_index(&plan, g, i)] - m).exp();
            }
            got[g as usize] = m + s.ln();
        }
        for (w, v) in y_data[dim].iter().zip(got.iter()) {
            assert!((w - v).abs() <= 1e-5, "axis {}: {} vs {}", dim, w, v);
        }
    }
}

/// Grid-stride plus tree reduction for a max.
fn run_max(plan: &ReduceLaunch, x: &[f32]) -> Vec<f32> {
    let k = plan.group_size as usize;
    let n = plan.axis;
    let mut out = vec![0f32; plan.groups as usize];
    for g in 0..plan.groups {
        let mut lanes = vec![f32::NEG_INFINITY; k];
        for lane in 0..k {
            let mut i = lane as u32;
            while i < n {
                lanes[lane] = lanes[lane].max(x[elem_index(plan, g, i)]);
                i += k as u32;
            }
        }
        let mut width = k / 2;
        while width >= 1 {
            for lane in 0..width {
                lanes[lane] = lanes[lane].max(lanes[lane + width]);
            }
            width /= 2;
        }
        out[g as usize] = lanes[0];
    }
    out
}

#[test]
fn check_max_fw_dims() {
    let x_data = vec![
        0., 1., 2., 6., 7., 8., 3., 4., 5., -3., -4., -5., 0., -1., -2., -6., -7., -8.,
    ];
    let cases: Vec<(u32, Shape, Vec<f32>)> = vec![
        (0, sh(&[1, 3], 2), vec![2., 8., 5., -3., 0., -6.]),
        (1, sh(&[3, 1], 2), vec![6., 7., 8., 0., -1., -2.]),
        (2, sh(&[3, 3], 2), x_data.clone()),
    ];
    let x = sh(&[3, 3], 2);
    for (dim, y_shape, expect) in cases {
        let plan = reduce_launch(&x, &y_shape, dim);
        assert_eq!(expect, run_max(&plan, &x_data), "axis {}", dim);
    }
}
