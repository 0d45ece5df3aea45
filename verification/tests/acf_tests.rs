//! End-to-end tests of the statistics chain, driving the library through its
//! public bit-pattern interface with real double-precision values.
use arima::ArimaError;
use arima::acf;

fn bits(v: &[f64]) -> Vec<u64> {
    v.iter().map(|x| x.to_bits()).collect()
}

fn vals(v: &[u64]) -> Vec<f64> {
    v.iter().map(|x| f64::from_bits(*x)).collect()
}

#[test]
fn test_corr_lag0_is_one() {
    let x = bits(&[1.0, 1.2, 1.4, 1.6]);
    let rho = acf::acf(&x, None, false).unwrap();
    assert_eq!(rho.len(), 4);
    assert_eq!(rho[0], 1.0f64.to_bits());
}

#[test]
fn test_corr_magnitudes_bounded() {
    let x = bits(&[0.5, 1.0, 2.0, 1.5, 0.7, 1.1, 0.9, 1.3]);
    let rho = vals(&acf::acf(&x, None, false).unwrap());
    assert_eq!(rho[0], 1.0);
    for t in 1..rho.len() {
        assert!(rho[t].abs() <= 1.0 + 1e-12, "lag {} out of range: {}", t, rho[t]);
    }
}

#[test]
fn test_cov_lag0_population_variance_exact() {
    // mean 2.0, deviations -1 and 1: population variance exactly 1.0
    let x = bits(&[1.0, 3.0]);
    let y = acf::acf(&x, Some(0), true).unwrap();
    assert_eq!(y.len(), 1);
    assert_eq!(y[0], 1.0f64.to_bits());
}

#[test]
fn test_cov_matches_replayed_arithmetic() {
    // replay the documented accumulation order in hardware doubles; the
    // library's software IEEE arithmetic must agree bit for bit
    let xs = [1.0f64, 1.2, 1.4, 1.6];
    let x = bits(&xs);
    let y = acf::acf(&x, None, true).unwrap();

    let n = xs.len();
    let mut sum = 0.0f64;
    for &v in xs.iter() {
        sum += v;
    }
    let mean = sum / (n as u32 as f64);
    for t in 0..n {
        let mut acc = 0.0f64;
        for i in 0..n - t {
            acc += ((xs[i] - mean) * (xs[i + t] - mean)) / (n as u32 as f64);
        }
        assert_eq!(y[t], acc.to_bits(), "lag {}", t);
    }
}

#[test]
fn test_acf_clamps_excessive_lag() {
    let x = bits(&[1.0, 1.2, 1.4, 1.6]);
    let capped = acf::acf(&x, Some(100), false).unwrap();
    let full = acf::acf(&x, None, false).unwrap();
    assert_eq!(capped.len(), 4);
    assert_eq!(capped, full);
}

#[test]
fn test_acf_single_element() {
    let x = bits(&[5.0]);
    assert_eq!(acf::acf(&x, None, false).unwrap(), vec![1.0f64.to_bits()]);
    assert_eq!(acf::acf(&x, None, true).unwrap(), vec![0.0f64.to_bits()]);
}

#[test]
fn test_ar_entry_points_identical() {
    let x = bits(&[1.0, 1.2, 1.4, 1.6]);
    let direct = acf::ar_coef(&x, Some(2)).unwrap();
    let rho = acf::acf(&x, Some(3), false).unwrap();
    let via_rho = acf::ar_coef_rho(&rho, Some(2)).unwrap();
    assert_eq!(direct, via_rho);
}

#[test]
fn test_ar_coef_rho_order1_exact() {
    // the order-1 system is 1 * phi = rho[1]
    let rho = bits(&[1.0, 0.5]);
    let phi = acf::ar_coef_rho(&rho, Some(1)).unwrap();
    assert_eq!(phi, vec![0.5f64.to_bits()]);
}

#[test]
fn test_ar_coef_rho_order2_exact() {
    // [[1, 0.5], [0.5, 1]] phi = [0.5, 0.25] has the exact solution
    // [0.5, 0.0], and every step of the factorization is dyadic
    let rho = bits(&[1.0, 0.5, 0.25]);
    let phi = acf::ar_coef_rho(&rho, Some(2)).unwrap();
    assert_eq!(phi, bits(&[0.5, 0.0]));
    let p = acf::pacf_rho(&rho, Some(2)).unwrap();
    assert_eq!(p, bits(&[0.5, 0.0]));
}

#[test]
fn test_pacf_lag1_equals_rho1() {
    let x = bits(&[1.0, 1.2, 1.4, 1.6]);
    let rho = acf::acf(&x, None, false).unwrap();
    let p = acf::pacf_rho(&rho, Some(1)).unwrap();
    assert_eq!(p.len(), 1);
    assert_eq!(p[0], rho[1]);
}

#[test]
fn test_round_trip() {
    let x = bits(&[1.0, 1.2, 1.4, 1.6]);
    let rho = acf::acf(&x, Some(2), false).unwrap();
    assert_eq!(rho.len(), 3);
    assert_eq!(rho[0], 1.0f64.to_bits());
    let phi = acf::ar_coef_rho(&rho, Some(2)).unwrap();
    assert_eq!(phi.len(), 2);
    let p = acf::pacf_rho(&rho, Some(2)).unwrap();
    assert_eq!(p.len(), 2);
    assert_eq!(p[1], phi[1]);
}

#[test]
fn test_non_positive_definite_fails() {
    // [[1.0, 1.5], [1.5, 1.0]] has a negative eigenvalue
    let rho = bits(&[1.0, 1.5, 0.3]);
    assert_eq!(acf::ar_coef_rho(&rho, Some(2)), Err(ArimaError));
}

#[test]
fn test_pacf_propagates_solve_failure() {
    let rho = bits(&[1.0, 1.5, 0.3]);
    // the order-1 solve alone succeeds ...
    assert!(acf::pacf_rho(&rho, Some(1)).is_ok());
    // ... but the failing order-2 solve aborts the whole computation
    assert_eq!(acf::pacf_rho(&rho, Some(2)), Err(ArimaError));
}

#[test]
fn test_acf_idempotent() {
    let x = bits(&[3.1, 4.1, 5.9, 2.6, 5.3, 5.8]);
    let a = acf::acf(&x, None, false).unwrap();
    let b = acf::acf(&x, None, false).unwrap();
    assert_eq!(a, b);
    let c = acf::acf(&x, Some(3), true).unwrap();
    let d = acf::acf(&x, Some(3), true).unwrap();
    assert_eq!(c, d);
}

#[test]
fn test_var_phi_rho_cov_exact() {
    // 2.0 * (1 - 0.5 * 0.5) == 1.5, exactly representable
    let phi = bits(&[0.5]);
    let rho = bits(&[1.0, 0.5]);
    let v = acf::var_phi_rho_cov(&phi, &rho, 2.0f64.to_bits()).unwrap();
    assert_eq!(v, 1.5f64.to_bits());
}

#[test]
fn test_var_matches_composition() {
    let x = bits(&[1.0, 1.2, 1.4, 1.6]);
    let v = acf::var(&x, Some(1)).unwrap();
    let rho = acf::acf(&x, Some(2), false).unwrap();
    let phi = acf::ar_coef_rho(&rho, Some(1)).unwrap();
    let cov0 = acf::acf(&x, Some(0), true).unwrap()[0];
    let composed = acf::var_phi_rho_cov(&phi, &rho, cov0).unwrap();
    assert_eq!(v, composed);
}

#[test]
fn test_pacf_series_matches_rho_path() {
    let x = bits(&[1.0, 1.2, 1.4, 1.6]);
    let direct = acf::pacf(&x, Some(2)).unwrap();
    let rho = acf::acf(&x, Some(2), false).unwrap();
    let via_rho = acf::pacf_rho(&rho, Some(2)).unwrap();
    assert_eq!(direct, via_rho);
}
