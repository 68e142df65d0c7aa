use bank::matrix::{Matrix, MatrixSet};

#[test]
fn increase_works() {
    let mut m = Matrix::new([1, 2, 3, 4, 5]);
    m.increase(10);
    assert_eq!(Matrix::new([11, 12, 13, 14, 15]), m);

    let mut m = Matrix::new([]);
    m.increase(10);
    assert_eq!(Matrix::new([]), m);
}

#[test]
fn scale_works() {
    let mut m = Matrix::new([1, 2, 3, 4, 5]);
    m.scale(2);
    assert_eq!(Matrix::new([2, 4, 6, 8, 10]), m);

    let mut m = Matrix::new([]);
    m.scale(2);
    assert_eq!(Matrix::new([]), m);
}

#[test]
fn matrix_sum_works() {
    let m = Matrix::new([1, 2, 3, 4, 5]);
    let result = m.sum();

    assert_eq!(15, result);

    let m = Matrix::new([]);
    let result = m.sum();

    assert_eq!(0, result);
}

#[test]
fn matrix_product_works() {
    let m = Matrix::new([1, 2, 3, 4]);
    let result = m.product();

    assert_eq!(24, result);

    let m = Matrix::new([]);
    let result = m.product();

    assert_eq!(1, result);
}

#[test]
fn get_works() {
    let m1 = Matrix::new([1, 2, 3]);
    let m2 = Matrix::new([4, 5, 6]);
    let m3 = Matrix::new([7, 8, 9]);

    let m_long_live: &Matrix<i32, 3>;

    {
        let binding = [&m1, &m2, &m3];
        let s = MatrixSet::new(&binding);

        assert_eq!(&m1, s.get(0));
        assert_eq!(&m2, s.get(1));
        assert_eq!(&m3, s.get(2));

        m_long_live = s.get(0)
    }

    assert_eq!(Matrix::<i32, 3>::new([1, 2, 3]), *m_long_live)
}

#[test]
fn set_sum_works() {
    let m1 = Matrix::new([1, 2, 3]);
    let m2 = Matrix::new([4, 5, 6]);
    let m3 = Matrix::new([7, 8, 9]);

    let binding = [&m1, &m2, &m3];
    let s = MatrixSet::new(&binding);

    let result = s.sum();

    assert_eq!(45, result);

    let binding: [&Matrix<i32, 3>; 0] = [];
    let s = MatrixSet::new(&binding);

    let result = s.sum();

    assert_eq!(0, result);
}

#[test]
fn set_product_works() {
    let m1 = Matrix::new([1, 2, 3]);
    let m2 = Matrix::new([4, 5, 6]);

    let binding = [&m1, &m2];
    let s = MatrixSet::new(&binding);

    let result = s.product();

    assert_eq!(720, result);

    let binding: [&Matrix<i32, 3>; 0] = [];
    let s = MatrixSet::new(&binding);

    let result = s.product();

    assert_eq!(1, result);
}
