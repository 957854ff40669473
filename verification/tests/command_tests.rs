use raster_engine::binary_op::ArithmeticOp;
use raster_engine::command::{
    apply_exact, expect_arguments, parse_operation, ExactOp, NumericOp, Operation,
};
use raster_engine::error::EngineError;
use raster_engine::raster::{Image, Raster, Rgb};

fn gray(width: u32, height: u32, data: Vec<u8>) -> Image {
    Image::Gray(Raster::from_raw(width, height, data).unwrap())
}

fn rgb(width: u32, height: u32, data: Vec<(u8, u8, u8)>) -> Image {
    let pixels = data.into_iter().map(|(r, g, b)| Rgb { r, g, b }).collect();
    Image::Rgb(Raster::from_raw(width, height, pixels).unwrap())
}

fn exact(name: &str, arg: &str) -> ExactOp {
    match parse_operation(name, arg) {
        Ok(Operation::Exact(op)) => op,
        other => panic!("{:?}", other),
    }
}

fn numeric(name: &str, arg: &str) -> NumericOp {
    match parse_operation(name, arg) {
        Ok(Operation::Numeric(op)) => op,
        other => panic!("{:?}", other),
    }
}

#[test]
fn operations_without_parameters() {
    assert_eq!(exact("color/invert", ""), ExactOp::Invert);
    assert_eq!(exact("color/hist_equalize", ""), ExactOp::HistEqualize);
    assert_eq!(exact("color/to_gray", "ignored"), ExactOp::ToGray);
    assert_eq!(exact("fft/shift_to_center", ""), ExactOp::ShiftToCenter);
    assert_eq!(numeric("fft/dft", ""), NumericOp::Dft);
    assert_eq!(numeric("fft/dft_non_shifted", ""), NumericOp::DftNonShifted);
    assert_eq!(numeric("fft/dft_no_log", ""), NumericOp::DftNoLog);
    assert_eq!(numeric("fft/dft_non_shifted_no_log", ""), NumericOp::DftNonShiftedNoLog);
    assert_eq!(numeric("fft/idft", ""), NumericOp::Idft);
    assert_eq!(numeric("fft/idft_non_shifted", ""), NumericOp::IdftNonShifted);
    assert_eq!(numeric("fft/dft_idft", ""), NumericOp::DftIdft);
}

#[test]
fn pixel_arithmetic_by_name() {
    assert_eq!(exact("binary_op/add", ""), ExactOp::Arithmetic { op: ArithmeticOp::Add });
    assert_eq!(exact("binary_op/sub", ""), ExactOp::Arithmetic { op: ArithmeticOp::Sub });
    assert_eq!(exact("binary_op/mul", ""), ExactOp::Arithmetic { op: ArithmeticOp::Mul });
    assert_eq!(exact("binary_op/div", ""), ExactOp::Arithmetic { op: ArithmeticOp::Div });
}

#[test]
fn unknown_operation_is_refused() {
    for name in ["", "invert", "color/", "color/Invert", "binary_op/pow", "fft"] {
        assert_eq!(
            parse_operation(name, "1,2"),
            Err(EngineError::InvalidOperation { operation: name.to_string() })
        );
    }
}

#[test]
fn translate_takes_two_offsets() {
    assert_eq!(
        exact("geometric/translate", "3, -4"),
        ExactOp::Translate { x: Some(3), y: Some(-4) }
    );
    assert_eq!(
        exact("geometric/translate", "x, 7"),
        ExactOp::Translate { x: None, y: Some(7) }
    );
    assert_eq!(exact("geometric/translate", ","), ExactOp::Translate { x: None, y: None });
}

#[test]
fn wrong_argument_count_names_the_expected_number() {
    for arg in ["", "1", "1,2,3"] {
        for name in
            ["geometric/translate", "geometric/resize", "geometric/stretch", "filter/gaussian"]
        {
            assert_eq!(
                parse_operation(name, arg),
                Err(EngineError::InvalidArguments { operation: name.to_string(), expected: 2 })
            );
        }
    }
    for arg in ["", "1,2", "1,2,3", "1,2,3,4,5"] {
        assert_eq!(
            parse_operation("fft/homomorphic", arg),
            Err(
                EngineError::InvalidArguments {
                    operation: "fft/homomorphic".to_string(),
                    expected: 4
                }
            )
        );
    }
}

#[test]
fn resize_takes_two_dimensions() {
    assert_eq!(
        exact("geometric/resize", "640,480"),
        ExactOp::Resize { width: Some(640), height: Some(480) }
    );
    assert_eq!(
        exact("geometric/resize", "-1, 4294967296"),
        ExactOp::Resize { width: None, height: None }
    );
}

#[test]
fn selectors_are_handed_on_as_given() {
    assert_eq!(exact("geometric/mirror", "x"), ExactOp::Mirror { axis: "x".to_string() });
    assert_eq!(exact("geometric/mirror", " x"), ExactOp::Mirror { axis: " x".to_string() });
    assert_eq!(exact("filter/sobel", "h"), ExactOp::Sobel { direction: "h".to_string() });
    assert_eq!(exact("filter/prewitt", "v"), ExactOp::Prewitt { direction: "v".to_string() });
    assert_eq!(exact("filter/roberts", "/"), ExactOp::Roberts { direction: "/".to_string() });
    assert_eq!(
        exact("filter/sobel_sharpen", ""),
        ExactOp::SobelSharpen { direction: String::new() }
    );
    assert_eq!(
        exact("filter/prewitt_sharpen", "h"),
        ExactOp::PrewittSharpen { direction: "h".to_string() }
    );
    assert_eq!(
        exact("filter/roberts_sharpen", "\\"),
        ExactOp::RobertsSharpen { direction: "\\".to_string() }
    );
}

#[test]
fn unreadable_integers_take_their_defaults() {
    assert_eq!(exact("filter/mean", "5"), ExactOp::Mean { kernel_size: 5 });
    assert_eq!(exact("filter/mean", ""), ExactOp::Mean { kernel_size: 3 });
    assert_eq!(exact("filter/mean", " 5"), ExactOp::Mean { kernel_size: 3 });
    assert_eq!(exact("filter/median", "7"), ExactOp::Median { kernel_size: 7 });
    assert_eq!(exact("filter/median", "-7"), ExactOp::Median { kernel_size: 3 });
    assert_eq!(exact("filter/laplacian", "4"), ExactOp::Laplacian { neighbors: 4 });
    assert_eq!(exact("filter/laplacian", "four"), ExactOp::Laplacian { neighbors: 8 });
    assert_eq!(exact("filter/laplacian", "256"), ExactOp::Laplacian { neighbors: 8 });
    assert_eq!(
        exact("filter/laplacian_sharpen", ""),
        ExactOp::LaplacianSharpen { neighbors: 8 }
    );
    assert_eq!(numeric("fourier_desc", "12"), NumericOp::FourierDesc { nterms: 12 });
    assert_eq!(numeric("fourier_desc", "1.5"), NumericOp::FourierDesc { nterms: 64 });
}

#[test]
fn real_parameters_are_handed_on_as_text() {
    assert_eq!(
        numeric("color/exponential", "0.5"),
        NumericOp::Exponential { exponent: "0.5".to_string() }
    );
    assert_eq!(
        numeric("color/to_binary", ""),
        NumericOp::ToBinary { threshold: String::new() }
    );
    assert_eq!(numeric("geometric/rotate", "90"), NumericOp::Rotate { angle: "90".to_string() });
    assert_eq!(
        numeric("geometric/stretch", " 1.5 , 2 "),
        NumericOp::Stretch { x: "1.5".to_string(), y: "2".to_string() }
    );
    assert_eq!(
        numeric("filter/gaussian", "5, 1.4"),
        NumericOp::Gaussian { kernel_size: 5, sigma: "1.4".to_string() }
    );
    assert_eq!(
        numeric("filter/gaussian", "big, 1.4"),
        NumericOp::Gaussian { kernel_size: 3, sigma: "1.4".to_string() }
    );
    assert_eq!(
        numeric("fft/homomorphic", "0.3,2.0, 2.0 ,10"),
        NumericOp::Homomorphic {
            r_l: "0.3".to_string(),
            r_h: "2.0".to_string(),
            c: "2.0".to_string(),
            d0: "10".to_string()
        }
    );
}

#[test]
fn expect_arguments_counts_the_pieces() {
    assert_eq!(expect_arguments("op", "1, 2", 2), Ok(vec!["1", "2"]));
    assert_eq!(expect_arguments("op", "", 1), Ok(vec![""]));
    assert_eq!(
        expect_arguments("op", "1", 2),
        Err(EngineError::InvalidArguments { operation: "op".to_string(), expected: 2 })
    );
    assert_eq!(
        expect_arguments("op", "", 0),
        Err(EngineError::InvalidArguments { operation: "op".to_string(), expected: 0 })
    );
}

#[test]
fn apply_exact_runs_the_operation() {
    let img = gray(2, 2, vec![1, 2, 3, 4]);
    assert_eq!(
        apply_exact(&ExactOp::Invert, img.clone(), None),
        gray(2, 2, vec![254, 253, 252, 251])
    );
    assert_eq!(apply_exact(&ExactOp::ToGray, img.clone(), None), img);
    assert_eq!(
        apply_exact(&exact("geometric/translate", "1,0"), img.clone(), None),
        gray(2, 2, vec![0, 1, 0, 3])
    );
    assert_eq!(
        apply_exact(&exact("geometric/resize", "1,1"), img.clone(), None),
        gray(1, 1, vec![4])
    );
    assert_eq!(
        apply_exact(&exact("geometric/mirror", "x"), img.clone(), None),
        gray(2, 2, vec![2, 1, 4, 3])
    );
    assert_eq!(
        apply_exact(&exact("fft/shift_to_center", ""), img.clone(), None),
        gray(2, 2, vec![4, 3, 2, 1])
    );
    assert_eq!(apply_exact(&exact("filter/mean", "1"), img.clone(), None), img);
    assert_eq!(apply_exact(&exact("filter/median", "1"), img.clone(), None), img);
    assert_eq!(
        apply_exact(&exact("color/hist_equalize", ""), img.clone(), None),
        gray(2, 2, vec![63, 127, 191, 255])
    );
}

#[test]
fn apply_exact_runs_the_filters() {
    let img = gray(3, 3, vec![10, 10, 10, 10, 5, 10, 10, 10, 10]);
    assert_eq!(
        apply_exact(&exact("filter/laplacian", "4"), img.clone(), None),
        gray(3, 3, vec![0, 0, 0, 0, 20, 0, 0, 0, 0])
    );
    assert_eq!(
        apply_exact(&exact("filter/laplacian", ""), img.clone(), None),
        gray(3, 3, vec![0, 0, 0, 0, 40, 0, 0, 0, 0])
    );
    let black = gray(3, 3, vec![0; 9]);
    for name in ["filter/sobel", "filter/prewitt", "filter/roberts"] {
        assert_eq!(apply_exact(&exact(name, "none"), img.clone(), None), black);
    }
    let mut expected = vec![(10u8, 10u8, 10u8); 9];
    expected[4] = (5, 5, 5);
    for name in ["filter/sobel_sharpen", "filter/prewitt_sharpen", "filter/roberts_sharpen"] {
        assert_eq!(
            apply_exact(&exact(name, "none"), img.clone(), None),
            rgb(3, 3, expected.clone())
        );
    }
    expected[4] = (25, 25, 25);
    assert_eq!(
        apply_exact(&exact("filter/laplacian_sharpen", "4"), img, None),
        rgb(3, 3, expected)
    );
}

#[test]
fn apply_exact_combines_two_images() {
    let a = rgb(1, 1, vec![(200, 100, 0)]);
    let b = rgb(1, 1, vec![(100, 100, 100)]);
    assert_eq!(
        apply_exact(&exact("binary_op/add", ""), a.clone(), Some(&b)),
        rgb(1, 1, vec![(255, 200, 100)])
    );
    assert_eq!(
        apply_exact(&exact("binary_op/sub", ""), a.clone(), Some(&b)),
        rgb(1, 1, vec![(100, 0, 0)])
    );
    assert_eq!(
        apply_exact(&exact("binary_op/mul", ""), a.clone(), Some(&b)),
        rgb(1, 1, vec![(78, 39, 0)])
    );
    assert_eq!(
        apply_exact(&exact("binary_op/div", ""), a, Some(&b)),
        rgb(1, 1, vec![(255, 255, 0)])
    );
}

#[test]
fn every_exact_operation_accepts_awkward_images() {
    let commands = [
        ("color/invert", ""),
        ("color/hist_equalize", ""),
        ("color/to_gray", ""),
        ("geometric/translate", "5,-5"),
        ("geometric/resize", "3,2"),
        ("geometric/resize", "0,0"),
        ("geometric/mirror", "x"),
        ("geometric/mirror", "y"),
        ("binary_op/add", ""),
        ("binary_op/sub", ""),
        ("binary_op/mul", ""),
        ("binary_op/div", ""),
        ("filter/mean", "5"),
        ("filter/median", "5"),
        ("filter/sobel", "h"),
        ("filter/sobel", "v"),
        ("filter/laplacian", "4"),
        ("filter/laplacian", "8"),
        ("filter/prewitt", "h"),
        ("filter/prewitt", "v"),
        ("filter/roberts", "\\"),
        ("filter/roberts", "/"),
        ("filter/sobel_sharpen", "h"),
        ("filter/laplacian_sharpen", "8"),
        ("filter/prewitt_sharpen", "v"),
        ("filter/roberts_sharpen", "/"),
        ("fft/shift_to_center", ""),
    ];
    let images = [
        gray(0, 0, vec![]),
        gray(1, 1, vec![255]),
        gray(3, 1, vec![0, 128, 255]),
        gray(1, 3, vec![255, 128, 0]),
        rgb(0, 2, vec![]),
        rgb(1, 1, vec![(255, 255, 255)]),
        rgb(2, 2, vec![(255, 0, 0), (0, 255, 0), (0, 0, 255), (1, 2, 3)]),
    ];
    let second = rgb(2, 1, vec![(0, 0, 0), (255, 255, 255)]);
    for (name, arg) in commands {
        let op = exact(name, arg);
        for img in &images {
            let out = apply_exact(&op, img.clone(), Some(&second));
            let again = apply_exact(&op, img.clone(), Some(&second));
            assert_eq!(out, again, "{} is deterministic", name);
            let pixels = match &out {
                Image::Gray(g) => g.as_raw().len() as u64,
                Image::Rgb(c) => c.as_raw().len() as u64,
            };
            assert_eq!(pixels, out.width() as u64 * out.height() as u64, "{}", name);
        }
    }
}

#[test]
fn try_apply_exact_needs_the_second_image_for_arithmetic() {
    let a = rgb(1, 1, vec![(200, 100, 0)]);
    let b = rgb(1, 1, vec![(100, 100, 100)]);
    let add = exact("binary_op/add", "");
    assert_eq!(
        raster_engine::command::try_apply_exact(&add, a.clone(), Some(&b)),
        Some(rgb(1, 1, vec![(255, 200, 100)]))
    );
    assert_eq!(raster_engine::command::try_apply_exact(&add, a.clone(), None), None);
    assert_eq!(
        raster_engine::command::try_apply_exact(&ExactOp::Invert, a, None),
        Some(rgb(1, 1, vec![(55, 155, 255)]))
    );
}
