use matrix_engine::{Matrix, Scalar};

// The engine computes on bit patterns with software arithmetic. These tests
// run the same steps in native floating point and compare bit for bit.

struct Lcg(u64);

impl Lcg {
    fn next(&mut self) -> u64 {
        self.0 = self.0.wrapping_mul(6364136223846793005).wrapping_add(1442695040888963407);
        self.0 >> 33
    }

    fn value(&mut self) -> f64 {
        match self.next() % 8 {
            0 => 0.0,
            1 => (self.next() % 7) as f64 - 3.0,
            2 => ((self.next() % 2001) as f64 - 1000.0) / 8.0,
            3 => ((self.next() % 2001) as f64 - 1000.0) / 7.0,
            4 => (self.next() % 1000) as f64 * 1.0e-3,
            5 => ((self.next() % 2001) as f64 - 1000.0) * 1.0e12,
            6 => ((self.next() % 2001) as f64 - 1000.0) * 1.0e-12,
            _ => (self.next() % 100) as f64 + 0.1,
        }
    }

    fn values(&mut self, n: usize) -> Vec<f64> {
        (0..n).map(|_| self.value()).collect()
    }
}

fn engine_matrix(rows: usize, cols: usize, values: &[f64]) -> Matrix {
    let mut m = Matrix::new(rows, cols);
    m.load_from_vector(values.iter().map(|v| Scalar::from_bits(v.to_bits())).collect());
    m
}

fn same_bits(got: &Matrix, want: &[f64]) -> bool {
    got.data.len() == want.len()
        && got.data.iter().zip(want.iter()).all(|(g, w)| {
            let g = f64::from_bits(g.to_bits());
            g.to_bits() == w.to_bits() || (g.is_nan() && w.is_nan())
        })
}

fn same_scalar(got: Scalar, want: f64) -> bool {
    let g = f64::from_bits(got.to_bits());
    g.to_bits() == want.to_bits() || (g.is_nan() && want.is_nan())
}

fn native_swap(d: &mut [f64], cols: usize, a: usize, b: usize) {
    for j in 0..cols {
        d.swap(a * cols + j, b * cols + j);
    }
}

fn native_scale(d: &mut [f64], cols: usize, r: usize, factor: f64) {
    for j in 0..cols {
        d[r * cols + j] = d[r * cols + j] * factor;
    }
}

fn native_add_multiple(d: &mut [f64], cols: usize, src: usize, dest: usize, factor: f64) {
    for j in 0..cols {
        d[dest * cols + j] = d[src * cols + j] * factor + d[dest * cols + j];
    }
}

fn native_echelon(rows: usize, cols: usize, d: &mut [f64]) {
    let mut lead = 0;
    for r in 0..rows {
        if lead >= cols {
            return;
        }
        let mut i = r;
        while d[i * cols + lead] == 0.0 {
            i += 1;
            if i == rows {
                i = r;
                lead += 1;
                if lead == cols {
                    return;
                }
            }
        }
        if i != r {
            native_swap(d, cols, i, r);
        }
        let pivot = d[r * cols + lead];
        native_scale(d, cols, r, 1.0 / pivot);
        for k in 0..rows {
            if k != r {
                let factor = -d[k * cols + lead];
                native_add_multiple(d, cols, r, k, factor);
            }
        }
        lead += 1;
    }
}

fn native_rank(rows: usize, cols: usize, values: &[f64]) -> usize {
    let mut d = values.to_vec();
    native_echelon(rows, cols, &mut d);
    let zero_rows = (0..rows).filter(|i| (0..cols).all(|j| d[i * cols + j] == 0.0)).count();
    rows - zero_rows
}

fn native_inverse(n: usize, values: &[f64]) -> Option<Vec<f64>> {
    let mut a = values.to_vec();
    let mut b = vec![0.0; n * n];
    for i in 0..n {
        b[i * n + i] = 1.0;
    }
    for i in 0..n {
        let mut j = i;
        while j < n && a[j * n + i] == 0.0 {
            j += 1;
        }
        if j == n {
            return None;
        }
        if j != i {
            native_swap(&mut a, n, i, j);
            native_swap(&mut b, n, i, j);
        }
        let pivot = a[i * n + i];
        native_scale(&mut a, n, i, 1.0 / pivot);
        native_scale(&mut b, n, i, 1.0 / pivot);
        let factors: Vec<f64> = (0..n).map(|k| a[k * n + i]).collect();
        for k in 0..n {
            if k != i {
                native_add_multiple(&mut a, n, i, k, -factors[k]);
                native_add_multiple(&mut b, n, i, k, -factors[k]);
            }
        }
    }
    Some(b)
}

fn native_determinant(n: usize, values: &[f64]) -> f64 {
    let mut a = values.to_vec();
    let mut acc = 1.0f64;
    for i in 0..n {
        let mut j = i;
        while j < n && a[j * n + i] == 0.0 {
            j += 1;
        }
        if j == n {
            return 0.0;
        }
        if j != i {
            native_swap(&mut a, n, i, j);
            acc = -acc;
        }
        let pivot = a[i * n + i];
        acc = acc * pivot;
        native_scale(&mut a, n, i, 1.0 / pivot);
        for k in (i + 1)..n {
            let factor = -a[k * n + i];
            native_add_multiple(&mut a, n, i, k, factor);
        }
    }
    acc
}

fn native_minor(n: usize, values: &[f64], row: usize, col: usize) -> Vec<f64> {
    let mut out = Vec::new();
    for i in 0..n {
        for j in 0..n {
            if i != row && j != col {
                out.push(values[i * n + j]);
            }
        }
    }
    out
}

fn native_cofactor(n: usize, values: &[f64]) -> f64 {
    if n == 1 {
        return values[0];
    }
    if n == 2 {
        return values[0] * values[3] - values[1] * values[2];
    }
    let mut det = 0.0;
    let mut sign = 1.0;
    for i in 0..n {
        let sub = native_cofactor(n - 1, &native_minor(n, values, 0, i));
        det += sign * values[i] * sub;
        sign *= -1.0;
    }
    det
}

fn native_product(n: usize, inner: usize, m: usize, a: &[f64], b: &[f64]) -> Vec<f64> {
    let mut out = vec![0.0; n * m];
    for i in 0..n {
        for j in 0..m {
            let mut sum = 0.0;
            for k in 0..inner {
                sum += a[i * inner + k] * b[k * m + j];
            }
            out[i * m + j] = sum;
        }
    }
    out
}

#[test]
fn echelon_form_matches_native_arithmetic() {
    let mut rng = Lcg(1);
    for round in 0..200 {
        let rows = 1 + round % 5;
        let cols = 1 + (round / 5) % 5;
        let values = rng.values(rows * cols);
        let mut m = engine_matrix(rows, cols, &values);
        m.echelon_form();
        let mut want = values.clone();
        native_echelon(rows, cols, &mut want);
        assert!(same_bits(&m, &want), "rows {} cols {} values {:?}", rows, cols, values);
    }
}

#[test]
fn rank_matches_native_arithmetic() {
    let mut rng = Lcg(2);
    for round in 0..200 {
        let rows = 1 + round % 4;
        let cols = 1 + (round / 4) % 4;
        let values = rng.values(rows * cols);
        let m = engine_matrix(rows, cols, &values);
        assert_eq!(m.rank(), native_rank(rows, cols, &values), "values {:?}", values);
    }
}

#[test]
fn inverse_matches_native_arithmetic() {
    let mut rng = Lcg(3);
    let mut found = 0;
    let mut missing = 0;
    for round in 0..300 {
        let n = 1 + round % 5;
        let values = rng.values(n * n);
        let m = engine_matrix(n, n, &values);
        match (m.inverse(), native_inverse(n, &values)) {
            (Some(got), Some(want)) => {
                found += 1;
                assert!(same_bits(&got, &want), "values {:?}", values);
            }
            (None, None) => missing += 1,
            (got, want) => panic!("values {:?}: {:?} against {:?}", values, got, want),
        }
    }
    assert!(found > 50);
    assert!(missing > 5);
}

#[test]
fn determinant_matches_native_arithmetic() {
    let mut rng = Lcg(4);
    for round in 0..300 {
        let n = 1 + round % 5;
        let values = rng.values(n * n);
        let m = engine_matrix(n, n, &values);
        let got = m.determinant().unwrap();
        assert!(same_scalar(got, native_determinant(n, &values)), "values {:?}", values);
    }
}

#[test]
fn cofactor_determinant_matches_native_arithmetic() {
    let mut rng = Lcg(5);
    for round in 0..200 {
        let n = 1 + round % 5;
        let values = rng.values(n * n);
        let m = engine_matrix(n, n, &values);
        let got = m.cofactor_determinant().unwrap();
        assert!(same_scalar(got, native_cofactor(n, &values)), "values {:?}", values);
    }
}

#[test]
fn product_matches_native_arithmetic() {
    let mut rng = Lcg(6);
    for round in 0..100 {
        let n = 1 + round % 4;
        let inner = 1 + (round / 4) % 4;
        let m = 1 + (round / 16) % 4;
        let a = rng.values(n * inner);
        let b = rng.values(inner * m);
        let got = engine_matrix(n, inner, &a).matrix_multiply(&engine_matrix(inner, m, &b)).unwrap();
        assert!(same_bits(&got, &native_product(n, inner, m, &a, &b)));
        let k = rng.value();
        let scaled = engine_matrix(n, inner, &a).scalar_multiply(Scalar::from_bits(k.to_bits()));
        let want: Vec<f64> = a.iter().map(|v| v * k).collect();
        assert!(same_bits(&scaled, &want));
    }
}

#[test]
fn decimal_numerals_match_native_parsing() {
    let mut rng = Lcg(7);
    for _ in 0..500 {
        let digits = 1 + rng.next() % 25;
        let mut numeral = String::new();
        if rng.next() % 2 == 0 {
            numeral.push('-');
        }
        let point = rng.next() % (digits + 1);
        for d in 0..digits {
            if d == point {
                numeral.push('.');
            }
            numeral.push(char::from(b'0' + (rng.next() % 10) as u8));
        }
        if rng.next() % 2 == 0 {
            numeral.push_str(&format!("e{}", (rng.next() % 700) as i64 - 350));
        }
        let want: f64 = numeral.parse().unwrap();
        let m = Matrix::create_from_string(&format!("1 1 {}", numeral)).unwrap();
        assert_eq!(m.data[0].to_bits(), want.to_bits(), "numeral {}", numeral);
    }
}
