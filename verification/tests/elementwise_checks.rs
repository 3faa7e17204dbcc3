//! Elementwise and broadcast dispatch checks: the planned read offsets drive
//! a host-side model of the binary, scalar-operand and constant kernels.

use prima_undine_opencl::elementwise::{assign_launch, binary_launch, map_launch, scalar_launch};
use prima_undine_opencl::shape::Shape;

fn sh(dims: &[u32], batch: u32) -> Shape {
    Shape::new(dims.to_vec(), batch).unwrap()
}

fn assert_close(expected: &[f32], got: &[f32]) {
    assert_eq!(expected.len(), got.len());
    for i in 0..expected.len() {
        let d = (expected[i] - got[i]).abs();
        assert!(d <= 1e-6 * expected[i].abs().max(1e-3), "at {}: {} vs {}", i, expected[i], got[i]);
    }
}

fn run_binary(
    a_shape: &Shape,
    b_shape: &Shape,
    y_shape: &Shape,
    a: &[f32],
    b: &[f32],
    f: fn(f32, f32) -> f32,
) -> Vec<f32> {
    let plan = binary_launch(a_shape, b_shape, y_shape, 64);
    let mut y = vec![0f32; (plan.volume * plan.batches) as usize];
    for bi in 0..plan.batches {
        for i in 0..plan.volume {
            let ra = plan.a_offset(bi, i) as usize;
            let rb = plan.b_offset(bi, i) as usize;
            y[(bi * plan.volume + i) as usize] = f(a[ra], b[rb]);
        }
    }
    y
}

#[test]
fn check_add_fw() {
    let a_data = vec![1000., 100., 10., 1., 0.1, 0.01, 0.001, 0.0001];
    let b_data = vec![0., 100., 20., 3., 0.4, 0.05, 0.006, 0.0007];
    let y_data = vec![1000., 200., 30., 4., 0.5, 0.06, 0.007, 0.0008];
    let a = sh(&[2, 2], 2);
    let b = sh(&[2, 2], 2);
    let y = sh(&[2, 2], 2);
    assert_close(&y_data, &run_binary(&a, &b, &y, &a_data, &b_data, |p, q| p + q));
}

#[test]
fn check_add_fw_batch_broadcast() {
    let a_data = vec![0., 1., 2., 3.];
    let b_data = vec![0., 0., 0., 0., 4., 4., 4., 4.];
    let y_data = vec![0., 1., 2., 3., 4., 5., 6., 7.];
    let a = sh(&[2, 2], 1);
    let b = sh(&[2, 2], 2);
    let y = sh(&[2, 2], 2);
    assert_eq!(y_data, run_binary(&a, &b, &y, &a_data, &b_data, |p, q| p + q));
    assert_eq!(y_data, run_binary(&b, &a, &y, &b_data, &a_data, |p, q| p + q));
}

#[test]
fn check_add_scalar_fw() {
    let x_data = vec![1000., 100., 10., 1., 0.1, 0.01, 0.001, 0.0001];
    let k_data = vec![10., 1.];
    let y_data = vec![1010., 110., 20., 11., 1.1, 1.01, 1.001, 1.0001];
    let x = sh(&[2, 2], 2);
    let k = sh(&[], 2);
    let y = sh(&[2, 2], 2);
    let plan = scalar_launch(&x, &k, &y, 64);
    let mut got = vec![0f32; 8];
    for bi in 0..plan.batches {
        for i in 0..plan.volume {
            let rx = if plan.a_has_batch == 1 { bi * plan.volume + i } else { i };
            let rk = if plan.b_has_batch == 1 { bi } else { 0 };
            got[(bi * plan.volume + i) as usize] = x_data[rx as usize] + k_data[rk as usize];
        }
    }
    assert_eq!(y_data, got);
}

#[test]
fn check_add_scalar_fw_batch_broadcast() {
    {
        let x_data = vec![1000., 100., 10., 1., 0.1, 0.01, 0.001, 0.0001];
        let k_data = vec![1.];
        let y_data = vec![1001., 101., 11., 2., 1.1, 1.01, 1.001, 1.0001];
        let x = sh(&[2, 2], 2);
        let k = sh(&[], 1);
        let y = sh(&[2, 2], 2);
        let plan = scalar_launch(&x, &k, &y, 64);
        let mut got = vec![0f32; 8];
        for bi in 0..plan.batches {
            for i in 0..plan.volume {
                let rx = if plan.a_has_batch == 1 { bi * plan.volume + i } else { i };
                let rk = if plan.b_has_batch == 1 { bi } else { 0 };
                got[(bi * plan.volume + i) as usize] = x_data[rx as usize] + k_data[rk as usize];
            }
        }
        assert_eq!(y_data, got);
    }
    {
        let x_data = vec![1000., 100., 10., 1.];
        let k_data = vec![10., 1.];
        let y_data = vec![1010., 110., 20., 11., 1001., 101., 11., 2.];
        let x = sh(&[2, 2], 1);
        let k = sh(&[], 2);
        let y = sh(&[2, 2], 2);
        let plan = scalar_launch(&x, &k, &y, 64);
        let mut got = vec![0f32; 8];
        for bi in 0..plan.batches {
            for i in 0..plan.volume {
                let rx = if plan.a_has_batch == 1 { bi * plan.volume + i } else { i };
                let rk = if plan.b_has_batch == 1 { bi } else { 0 };
                got[(bi * plan.volume + i) as usize] = x_data[rx as usize] + k_data[rk as usize];
            }
        }
        assert_eq!(y_data, got);
    }
}

#[test]
fn check_mul_fw_batch_broadcast() {
    let a_data = vec![0., 1., 2., 3.];
    let b_data = vec![1., 1., 1., 1., 0., 1., 2., 3.];
    let y_data = vec![0., 1., 2., 3., 0., 1., 4., 9.];
    let a = sh(&[2, 2], 1);
    let b = sh(&[2, 2], 2);
    let y = sh(&[2, 2], 2);
    assert_eq!(y_data, run_binary(&a, &b, &y, &a_data, &b_data, |p, q| p * q));
    assert_eq!(y_data, run_binary(&b, &a, &y, &b_data, &a_data, |p, q| p * q));
}

#[test]
fn check_sub_assign() {
    let x_data = vec![1000., 100., 10., 1., 0.1, 0.01, 0.001, 0.0001];
    let y_data = vec![0., 100., 20., 3., 0.4, 0.05, 0.006, 0.0007];
    let expect = vec![-1000., 0., 10., 2., 0.3, 0.04, 0.005, 0.0006];
    let x = sh(&[2, 2], 2);
    let y = sh(&[2, 2], 2);
    let plan = assign_launch(&x, &y, 64);
    let mut got = y_data.clone();
    for bi in 0..plan.batches {
        for i in 0..plan.volume {
            let rx = plan.a_offset(bi, i) as usize;
            let ry = plan.b_offset(bi, i) as usize;
            got[ry] -= x_data[rx];
        }
    }
    assert_close(&expect, &got);
}

#[test]
fn check_sub_assign_batch_broadcast() {
    {
        let x_data = vec![0., 1., 2., 3.];
        let y_data = vec![-2., -2., -2., -2., 4., 4., 4., 4.];
        let expect = vec![-2., -3., -4., -5., 4., 3., 2., 1.];
        let x = sh(&[2, 2], 1);
        let y = sh(&[2, 2], 2);
        let plan = assign_launch(&x, &y, 64);
        let mut got = y_data.clone();
        for bi in 0..plan.batches {
            for i in 0..plan.volume {
                got[plan.b_offset(bi, i) as usize] -= x_data[plan.a_offset(bi, i) as usize];
            }
        }
        assert_eq!(expect, got);
    }
    {
        let x_data = vec![-2., -2., -2., -2., 4., 4., 4., 4.];
        let y_data = vec![0., 1., 2., 3.];
        let expect = vec![-2., -1., 0., 1.];
        let x = sh(&[2, 2], 2);
        let y = sh(&[2, 2], 1);
        let plan = assign_launch(&x, &y, 64);
        let mut got = y_data.clone();
        for bi in 0..plan.batches {
            for i in 0..plan.volume {
                got[plan.b_offset(bi, i) as usize] -= x_data[plan.a_offset(bi, i) as usize];
            }
        }
        assert_eq!(expect, got);
    }
}

#[test]
fn check_mul_assign_const() {
    let y_data = vec![1000., 100., 10., 1., 0.1, 0.01, 0.001, 0.0001];
    let k = 5f32;
    let expect = vec![5000., 500., 50., 5., 0.5, 0.05, 0.005, 0.0005];
    let y = sh(&[2, 2], 2);
    let plan = map_launch(&y, 64);
    let mut got = y_data.clone();
    for i in 0..plan.size as usize {
        got[i] *= k;
    }
    assert_eq!(plan.size, 8);
    assert!(plan.blocks as u64 * plan.local as u64 >= plan.size as u64);
    assert_close(&expect, &got);
}

#[test]
fn unary_launch_covers_every_element_once() {
    let y = sh(&[3, 5], 7);
    let plan = map_launch(&y, 32);
    assert_eq!(plan.size, 105);
    assert_eq!(plan.blocks, 4);
    assert_eq!(plan.local, 32);
    assert!(plan.blocks * plan.local >= plan.size);
    assert!((plan.blocks - 1) * plan.local < plan.size);
}
