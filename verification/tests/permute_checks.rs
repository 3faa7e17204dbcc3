//! Axis-permutation checks: the planned stride arrays drive a host-side model
//! of the permutation kernel — decompose each flat source index against the
//! read strides, flatten the digits against the write strides — and the moved
//! data is held against the reference results.

use prima_undine_opencl::permute::permute_launch;
use prima_undine_opencl::shape::Shape;

fn sh(dims: &[u32], batch: u32) -> Shape {
    Shape::new(dims.to_vec(), batch).unwrap()
}

fn map_index(x_strides: &[u32], y_strides: &[u32], j: u32) -> u32 {
    let mut rest = j;
    let mut out = 0u32;
    for k in 0..x_strides.len() {
        let digit = rest / x_strides[k];
        rest %= x_strides[k];
        out += digit * y_strides[k];
    }
    out
}

fn run_permute_fw(x: &Shape, y: &Shape, perm: &Vec<u32>, data: &[f32]) -> Vec<f32> {
    let plan = permute_launch(x, y, perm, 64);
    let volume = plan.volume as usize;
    let mut out = vec![0f32; data.len()];
    for b in 0..plan.batches as usize {
        for j in 0..volume {
            let t = map_index(&plan.x_strides, &plan.y_strides, j as u32) as usize;
            out[b * volume + t] = data[b * volume + j];
        }
    }
    out
}

fn run_permute_bw(gx: &Shape, gy: &Shape, perm: &Vec<u32>, gy_data: &[f32]) -> Vec<f32> {
    let plan = permute_launch(gx, gy, perm, 64);
    let volume = plan.volume as usize;
    let mut out = vec![1f32; gy_data.len()];
    for b in 0..plan.batches as usize {
        for j in 0..volume {
            let t = map_index(&plan.x_strides, &plan.y_strides, j as u32) as usize;
            out[b * volume + j] += gy_data[b * volume + t];
        }
    }
    out
}

#[test]
fn check_permute_dims_fw_111() {
    let x_data = vec![42., 43.];
    let y_data = vec![42., 43.];
    let perm: Vec<u32> = vec![];
    let x = sh(&[], 2);
    let y = sh(&[], 2);
    assert_eq!(y_data, run_permute_fw(&x, &y, &perm, &x_data));
}

#[test]
fn check_permute_dims_fw_n11() {
    let x_data = vec![1., 2., 3., 4., 5., 6., 7., 8., 9., 10., 11., 12.];
    let y_data = vec![1., 2., 3., 4., 5., 6., 7., 8., 9., 10., 11., 12.];
    let perm: Vec<u32> = vec![1, 2, 0];
    let x = sh(&[6], 2);
    let y = sh(&[1, 1, 6], 2);
    assert_eq!(y_data, run_permute_fw(&x, &y, &perm, &x_data));
}

#[test]
fn check_permute_dims_fw_1n1() {
    let x_data = vec![1., 2., 3., 4., 5., 6., 7., 8., 9., 10., 11., 12.];
    let y_data = vec![1., 2., 3., 4., 5., 6., 7., 8., 9., 10., 11., 12.];
    let perm: Vec<u32> = vec![0, 2, 1];
    let x = sh(&[1, 4], 3);
    let y = sh(&[1, 1, 4], 3);
    assert_eq!(y_data, run_permute_fw(&x, &y, &perm, &x_data));
}

#[test]
fn check_permute_dims_fw_11n() {
    let x_data = vec![1., 2., 3., 4., 5., 6., 7., 8., 9., 10., 11., 12.];
    let y_data = vec![1., 2., 3., 4., 5., 6., 7., 8., 9., 10., 11., 12.];
    let perm: Vec<u32> = vec![2, 0, 1];
    let x = sh(&[1, 1, 4], 3);
    let y = sh(&[4], 3);
    assert_eq!(y_data, run_permute_fw(&x, &y, &perm, &x_data));
}

#[test]
fn check_permute_dims_fw_mn1() {
    let x_data = vec![1., 2., 3., 4., 5., 6., 7., 8., 9., 10., 11., 12.];
    let y_data = vec![1., 3., 5., 2., 4., 6., 7., 9., 11., 8., 10., 12.];
    let perm: Vec<u32> = vec![1, 2, 0];
    let x = sh(&[2, 3], 2);
    let y = sh(&[3, 1, 2], 2);
    assert_eq!(y_data, run_permute_fw(&x, &y, &perm, &x_data));
}

#[test]
fn check_permute_dims_fw_m1n() {
    let x_data = vec![1., 2., 3., 4., 5., 6., 7., 8., 9., 10., 11., 12.];
    let y_data = vec![1., 2., 3., 4., 5., 6., 7., 8., 9., 10., 11., 12.];
    let perm: Vec<u32> = vec![0, 2, 1];
    let x = sh(&[3, 1, 2], 2);
    let y = sh(&[3, 2], 2);
    assert_eq!(y_data, run_permute_fw(&x, &y, &perm, &x_data));
}

#[test]
fn check_permute_dims_fw_1mn() {
    let x_data = vec![1., 2., 3., 4., 5., 6., 7., 8., 9., 10., 11., 12.];
    let y_data = vec![1., 4., 2., 5., 3., 6., 7., 10., 8., 11., 9., 12.];
    let perm: Vec<u32> = vec![2, 0, 1];
    let x = sh(&[1, 3, 2], 2);
    let y = sh(&[2, 1, 3], 2);
    assert_eq!(y_data, run_permute_fw(&x, &y, &perm, &x_data));
}

#[test]
fn check_permute_dims_fw_lmn() {
    let x_data = vec![
        1., 2., 3., 4., 5., 6., 7., 8., 9., 10., 11., 12., 13., 14., 15., 16., 17., 18., 19.,
        20., 21., 22., 23., 24.,
    ];
    let y_data = vec![
        1., 7., 2., 8., 3., 9., 4., 10., 5., 11., 6., 12., 13., 19., 14., 20., 15., 21., 16.,
        22., 17., 23., 18., 24.,
    ];
    let perm: Vec<u32> = vec![2, 0, 1];
    let x = sh(&[2, 3, 2], 2);
    let y = sh(&[2, 2, 3], 2);
    assert_eq!(y_data, run_permute_fw(&x, &y, &perm, &x_data));
}

#[test]
fn check_permute_dims_bw_111() {
    let gy_data = vec![42., 43.];
    let gx_data = vec![43., 44.];
    let perm: Vec<u32> = vec![];
    let gx = sh(&[], 2);
    let gy = sh(&[], 2);
    assert_eq!(gx_data, run_permute_bw(&gx, &gy, &perm, &gy_data));
}

#[test]
fn check_permute_dims_bw_n11() {
    let gy_data = vec![1., 2., 3., 4., 5., 6., 7., 8., 9., 10., 11., 12.];
    let gx_data = vec![2., 3., 4., 5., 6., 7., 8., 9., 10., 11., 12., 13.];
    let perm: Vec<u32> = vec![1, 0];
    let gx = sh(&[6], 2);
    let gy = sh(&[1, 6], 2);
    assert_eq!(gx_data, run_permute_bw(&gx, &gy, &perm, &gy_data));
}

#[test]
fn check_permute_dims_bw_1n1() {
    let gy_data = vec![1., 2., 3., 4., 5., 6., 7., 8., 9., 10., 11., 12.];
    let gx_data = vec![2., 3., 4., 5., 6., 7., 8., 9., 10., 11., 12., 13.];
    let perm: Vec<u32> = vec![0, 2, 1];
    let gx = sh(&[1, 4], 3);
    let gy = sh(&[1, 1, 4], 3);
    assert_eq!(gx_data, run_permute_bw(&gx, &gy, &perm, &gy_data));
}

#[test]
fn check_permute_dims_bw_11n() {
    let gy_data = vec![1., 2., 3., 4., 5., 6., 7., 8., 9., 10., 11., 12.];
    let gx_data = vec![2., 3., 4., 5., 6., 7., 8., 9., 10., 11., 12., 13.];
    let perm: Vec<u32> = vec![2, 0, 1];
    let gx = sh(&[4], 3);
    let gy = sh(&[1, 1, 4], 3);
    assert_eq!(gx_data, run_permute_bw(&gx, &gy, &perm, &gy_data));
}

#[test]
fn check_permute_dims_bw_mn1() {
    let gy_data = vec![1., 3., 5., 2., 4., 6., 7., 9., 11., 8., 10., 12.];
    let gx_data = vec![2., 3., 4., 5., 6., 7., 8., 9., 10., 11., 12., 13.];
    let perm: Vec<u32> = vec![1, 2, 0];
    let gx = sh(&[2, 3], 2);
    let gy = sh(&[3, 1, 2], 2);
    assert_eq!(gx_data, run_permute_bw(&gx, &gy, &perm, &gy_data));
}

#[test]
fn check_permute_dims_bw_m1n() {
    let gy_data = vec![1., 2., 3., 4., 5., 6., 7., 8., 9., 10., 11., 12.];
    let gx_data = vec![2., 3., 4., 5., 6., 7., 8., 9., 10., 11., 12., 13.];
    let perm: Vec<u32> = vec![0, 2, 1];
    let gx = sh(&[3, 1, 2], 2);
    let gy = sh(&[3, 2], 2);
    assert_eq!(gx_data, run_permute_bw(&gx, &gy, &perm, &gy_data));
}

#[test]
fn check_permute_dims_bw_1mn() {
    let gy_data = vec![1., 4., 2., 5., 3., 6., 7., 10., 8., 11., 9., 12.];
    let gx_data = vec![2., 3., 4., 5., 6., 7., 8., 9., 10., 11., 12., 13.];
    let perm: Vec<u32> = vec![2, 0, 1];
    let gx = sh(&[1, 3, 2], 2);
    let gy = sh(&[2, 1, 3], 2);
    assert_eq!(gx_data, run_permute_bw(&gx, &gy, &perm, &gy_data));
}

#[test]
fn check_permute_dims_bw_lmn() {
    let gy_data = vec![
        1., 7., 2., 8., 3., 9., 4., 10., 5., 11., 6., 12., 13., 19., 14., 20., 15., 21., 16.,
        22., 17., 23., 18., 24.,
    ];
    let gx_data = vec![
        2., 3., 4., 5., 6., 7., 8., 9., 10., 11., 12., 13., 14., 15., 16., 17., 18., 19., 20.,
        21., 22., 23., 24., 25.,
    ];
    let perm: Vec<u32> = vec![2, 0, 1];
    let gx = sh(&[2, 3, 2], 2);
    let gy = sh(&[2, 2, 3], 2);
    assert_eq!(gx_data, run_permute_bw(&gx, &gy, &perm, &gy_data));
}

#[test]
fn permutation_then_inverse_restores_order() {
    let x_data: Vec<f32> = (0..24).map(|v| v as f32).collect();
    let perm: Vec<u32> = vec![2, 0, 1];
    let inv: Vec<u32> = vec![1, 2, 0];
    let x = sh(&[2, 3, 4], 1);
    let y = sh(&[4, 2, 3], 1);
    let moved = run_permute_fw(&x, &y, &perm, &x_data);
    let back = run_permute_fw(&y, &x, &inv, &moved);
    assert_eq!(x_data, back);
}
