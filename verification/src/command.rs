//! The engine's operations by name: which operation a command asks for, with which
//! parameters, and what the operations that need integer arithmetic only make of an image.
//!
//! Numeric arguments arrive as text. One that cannot be read falls back to the operation's
//! default; a wrong number of arguments, or an unknown operation, is an error.

use vstd::prelude::*;
use crate::binary_op::{ArithmeticOp, apply_binary_arithmetic, combined};
use crate::color::{equalized, hist_equalize, invert, inverted, to_gray};
use crate::error::EngineError;
use crate::fft::{shift_to_center, shifted};
use crate::filter::{
    edge_map, laplacian, laplacian_kernel, laplacian_sharpen, mean, mean_filtered, median,
    median_filtered, prewitt, prewitt_kernel, prewitt_sharpen, roberts, roberts_kernel,
    roberts_sharpen, sharpened, sobel, sobel_kernel, sobel_sharpen,
};
use crate::geometric::{
    dimension_or, mirror, mirrored_image, offset_or_zero, resize, resized_image, translate,
    translated_image,
};
use crate::raster::{Image, ImageModel, area};
use crate::text::{
    arguments_of, parse_i32, parse_u32, parse_u8, parse_usize, split_arguments, text_eq, texts,
    written_i32, written_u32, written_u8, written_usize,
};

verus! {

/// An operation that needs integer arithmetic only: [`apply_exact`] performs it.
#[derive(Clone, Debug, PartialEq, Eq)]
pub enum ExactOp {
    Invert,
    HistEqualize,
    ToGray,
    Translate { x: Option<i32>, y: Option<i32> },
    Resize { width: Option<u32>, height: Option<u32> },
    Mirror { axis: String },
    Arithmetic { op: ArithmeticOp },
    Mean { kernel_size: u32 },
    Median { kernel_size: u32 },
    Sobel { direction: String },
    Laplacian { neighbors: u8 },
    Prewitt { direction: String },
    Roberts { direction: String },
    SobelSharpen { direction: String },
    LaplacianSharpen { neighbors: u8 },
    PrewittSharpen { direction: String },
    RobertsSharpen { direction: String },
    ShiftToCenter,
}

/// An operation that computes in real or complex numbers. The caller performs it; the
/// arguments that are real numbers are handed on as the text that was given.
#[derive(Clone, Debug, PartialEq, Eq)]
pub enum NumericOp {
    Exponential { exponent: String },
    ToBinary { threshold: String },
    Rotate { angle: String },
    Stretch { x: String, y: String },
    Gaussian { kernel_size: usize, sigma: String },
    Dft,
    DftNonShifted,
    DftNoLog,
    DftNonShiftedNoLog,
    Idft,
    IdftNonShifted,
    DftIdft,
    Homomorphic { r_l: String, r_h: String, c: String, d0: String },
    FourierDesc { nterms: usize },
}

/// An operation of the engine with its parameters.
#[derive(Clone, Debug, PartialEq, Eq)]
pub enum Operation {
    Exact(ExactOp),
    Numeric(NumericOp),
}

/// The given number, or `default` where none could be read.
pub open spec fn u32_or(v: Option<u32>, default: u32) -> u32 {
    match v {
        Some(n) => n,
        None => default,
    }
}

/// The given number, or `default` where none could be read.
pub open spec fn u8_or(v: Option<u8>, default: u8) -> u8 {
    match v {
        Some(n) => n,
        None => default,
    }
}

/// The given number, or `default` where none could be read.
pub open spec fn usize_or(v: Option<usize>, default: usize) -> usize {
    match v {
        Some(n) => n,
        None => default,
    }
}

/// Whether `res` reports that `name` was given the wrong number of arguments, naming the
/// operation and the number it expects.
pub open spec fn wrong_arity<T>(
    res: Result<T, EngineError>,
    name: Seq<char>,
    expected: usize,
) -> bool {
    res matches Err(EngineError::InvalidArguments { operation, expected: e }) && operation@ == name
        && e == expected
}

/// Whether `res` reports that `name` is no operation of the engine.
pub open spec fn unknown_operation<T>(res: Result<T, EngineError>, name: Seq<char>) -> bool {
    res matches Err(EngineError::InvalidOperation { operation }) && operation@ == name
}

/// Whether `res` is what the command `name` with the argument text `arg` asks for.
///
/// * A name that the engine does not know is an invalid operation.
/// * An operation with several parameters takes them separated by commas; any other number
///   of arguments than it expects is an error that names the expected number.
/// * An integer parameter that cannot be read is absent (`translate`, `resize`), or takes its
///   default: 3 for a kernel size, 8 for the Laplacian's neighbours, 64 descriptor terms.
/// * A selector (`mirror`, `sobel`, `prewitt`, `roberts`) and a real-valued parameter are
///   handed on as given.
pub open spec fn operation_matches(
    name: Seq<char>,
    arg: Seq<char>,
    res: Result<Operation, EngineError>,
) -> bool {
    let args = arguments_of(arg);
    if name == "color/invert"@ {
        res == Ok::<Operation, EngineError>(Operation::Exact(ExactOp::Invert))
    } else if name == "color/exponential"@ {
        res matches Ok(Operation::Numeric(NumericOp::Exponential { exponent })) && exponent@ == arg
    } else if name == "color/hist_equalize"@ {
        res == Ok::<Operation, EngineError>(Operation::Exact(ExactOp::HistEqualize))
    } else if name == "color/to_gray"@ {
        res == Ok::<Operation, EngineError>(Operation::Exact(ExactOp::ToGray))
    } else if name == "color/to_binary"@ {
        res matches Ok(Operation::Numeric(NumericOp::ToBinary { threshold })) && threshold@ == arg
    } else if name == "geometric/translate"@ {
        if args.len() != 2 {
            wrong_arity(res, name, 2)
        } else {
            res == Ok::<Operation, EngineError>(
                Operation::Exact(
                    ExactOp::Translate { x: written_i32(args[0]), y: written_i32(args[1]) },
                ),
            )
        }
    } else if name == "geometric/rotate"@ {
        res matches Ok(Operation::Numeric(NumericOp::Rotate { angle })) && angle@ == arg
    } else if name == "geometric/resize"@ {
        if args.len() != 2 {
            wrong_arity(res, name, 2)
        } else {
            res == Ok::<Operation, EngineError>(
                Operation::Exact(
                    ExactOp::Resize { width: written_u32(args[0]), height: written_u32(args[1]) },
                ),
            )
        }
    } else if name == "geometric/mirror"@ {
        res matches Ok(Operation::Exact(ExactOp::Mirror { axis })) && axis@ == arg
    } else if name == "geometric/stretch"@ {
        if args.len() != 2 {
            wrong_arity(res, name, 2)
        } else {
            res matches Ok(Operation::Numeric(NumericOp::Stretch { x, y })) && x@ == args[0] && y@
                == args[1]
        }
    } else if name == "binary_op/add"@ {
        res == Ok::<Operation, EngineError>(
            Operation::Exact(ExactOp::Arithmetic { op: ArithmeticOp::Add }),
        )
    } else if name == "binary_op/sub"@ {
        res == Ok::<Operation, EngineError>(
            Operation::Exact(ExactOp::Arithmetic { op: ArithmeticOp::Sub }),
        )
    } else if name == "binary_op/mul"@ {
        res == Ok::<Operation, EngineError>(
            Operation::Exact(ExactOp::Arithmetic { op: ArithmeticOp::Mul }),
        )
    } else if name == "binary_op/div"@ {
        res == Ok::<Operation, EngineError>(
            Operation::Exact(ExactOp::Arithmetic { op: ArithmeticOp::Div }),
        )
    } else if name == "filter/mean"@ {
        res == Ok::<Operation, EngineError>(
            Operation::Exact(ExactOp::Mean { kernel_size: u32_or(written_u32(arg), 3) }),
        )
    } else if name == "filter/median"@ {
        res == Ok::<Operation, EngineError>(
            Operation::Exact(ExactOp::Median { kernel_size: u32_or(written_u32(arg), 3) }),
        )
    } else if name == "filter/gaussian"@ {
        if args.len() != 2 {
            wrong_arity(res, name, 2)
        } else {
            res matches Ok(Operation::Numeric(NumericOp::Gaussian { kernel_size, sigma }))
                && kernel_size == usize_or(written_usize(args[0]), 3) && sigma@ == args[1]
        }
    } else if name == "filter/sobel"@ {
        res matches Ok(Operation::Exact(ExactOp::Sobel { direction })) && direction@ == arg
    } else if name == "filter/laplacian"@ {
        res == Ok::<Operation, EngineError>(
            Operation::Exact(ExactOp::Laplacian { neighbors: u8_or(written_u8(arg), 8) }),
        )
    } else if name == "filter/prewitt"@ {
        res matches Ok(Operation::Exact(ExactOp::Prewitt { direction })) && direction@ == arg
    } else if name == "filter/roberts"@ {
        res matches Ok(Operation::Exact(ExactOp::Roberts { direction })) && direction@ == arg
    } else if name == "filter/sobel_sharpen"@ {
        res matches Ok(Operation::Exact(ExactOp::SobelSharpen { direction })) && direction@ == arg
    } else if name == "filter/laplacian_sharpen"@ {
        res == Ok::<Operation, EngineError>(
            Operation::Exact(ExactOp::LaplacianSharpen { neighbors: u8_or(written_u8(arg), 8) }),
        )
    } else if name == "filter/prewitt_sharpen"@ {
        res matches Ok(Operation::Exact(ExactOp::PrewittSharpen { direction })) && direction@ == arg
    } else if name == "filter/roberts_sharpen"@ {
        res matches Ok(Operation::Exact(ExactOp::RobertsSharpen { direction })) && direction@ == arg
    } else if name == "fft/dft"@ {
        res == Ok::<Operation, EngineError>(Operation::Numeric(NumericOp::Dft))
    } else if name == "fft/dft_non_shifted_no_log"@ {
        res == Ok::<Operation, EngineError>(Operation::Numeric(NumericOp::DftNonShiftedNoLog))
    } else if name == "fft/dft_non_shifted"@ {
        res == Ok::<Operation, EngineError>(Operation::Numeric(NumericOp::DftNonShifted))
    } else if name == "fft/dft_no_log"@ {
        res == Ok::<Operation, EngineError>(Operation::Numeric(NumericOp::DftNoLog))
    } else if name == "fft/idft"@ {
        res == Ok::<Operation, EngineError>(Operation::Numeric(NumericOp::Idft))
    } else if name == "fft/idft_non_shifted"@ {
        res == Ok::<Operation, EngineError>(Operation::Numeric(NumericOp::IdftNonShifted))
    } else if name == "fft/shift_to_center"@ {
        res == Ok::<Operation, EngineError>(Operation::Exact(ExactOp::ShiftToCenter))
    } else if name == "fft/homomorphic"@ {
        if args.len() != 4 {
            wrong_arity(res, name, 4)
        } else {
            res matches Ok(Operation::Numeric(NumericOp::Homomorphic { r_l, r_h, c, d0 })) && r_l@
                == args[0] && r_h@ == args[1] && c@ == args[2] && d0@ == args[3]
        }
    } else if name == "fft/dft_idft"@ {
        res == Ok::<Operation, EngineError>(Operation::Numeric(NumericOp::DftIdft))
    } else if name == "fourier_desc"@ {
        res == Ok::<Operation, EngineError>(
            Operation::Numeric(NumericOp::FourierDesc { nterms: usize_or(written_usize(arg), 64) }),
        )
    } else {
        unknown_operation(res, name)
    }
}

/// Splits an argument text and checks the number of arguments.
pub fn expect_arguments<'a>(name: &str, arg: &'a str, expected: usize) -> (res: Result<
    Vec<&'a str>,
    EngineError,
>)
    ensures
        arguments_of(arg@).len() == expected ==> (res matches Ok(pieces) && texts(pieces@)
            == arguments_of(arg@)),
        arguments_of(arg@).len() != expected ==> wrong_arity(res, name@, expected),
{
    let pieces = split_arguments(arg);
    if pieces.len() == expected {
        Ok(pieces)
    } else {
        Err(EngineError::InvalidArguments { operation: name.to_owned(), expected })
    }
}

/// Resolves a command: the operation called `name`, with its parameters read from `arg`.
pub fn parse_operation(name: &str, arg: &str) -> (res: Result<Operation, EngineError>)
    ensures
        operation_matches(name@, arg@, res),
{
    if text_eq(name, "color/invert") {
        Ok(Operation::Exact(ExactOp::Invert))
    } else if text_eq(name, "color/exponential") {
        Ok(Operation::Numeric(NumericOp::Exponential { exponent: arg.to_owned() }))
    } else if text_eq(name, "color/hist_equalize") {
        Ok(Operation::Exact(ExactOp::HistEqualize))
    } else if text_eq(name, "color/to_gray") {
        Ok(Operation::Exact(ExactOp::ToGray))
    } else if text_eq(name, "color/to_binary") {
        Ok(Operation::Numeric(NumericOp::ToBinary { threshold: arg.to_owned() }))
    } else if text_eq(name, "geometric/translate") {
        match expect_arguments(name, arg, 2) {
            Err(e) => Err(e),
            Ok(args) => Ok(
                Operation::Exact(
                    ExactOp::Translate { x: parse_i32(args[0]), y: parse_i32(args[1]) },
                ),
            ),
        }
    } else if text_eq(name, "geometric/rotate") {
        Ok(Operation::Numeric(NumericOp::Rotate { angle: arg.to_owned() }))
    } else if text_eq(name, "geometric/resize") {
        match expect_arguments(name, arg, 2) {
            Err(e) => Err(e),
            Ok(args) => Ok(
                Operation::Exact(
                    ExactOp::Resize { width: parse_u32(args[0]), height: parse_u32(args[1]) },
                ),
            ),
        }
    } else if text_eq(name, "geometric/mirror") {
        Ok(Operation::Exact(ExactOp::Mirror { axis: arg.to_owned() }))
    } else if text_eq(name, "geometric/stretch") {
        match expect_arguments(name, arg, 2) {
            Err(e) => Err(e),
            Ok(args) => Ok(
                Operation::Numeric(
                    NumericOp::Stretch { x: args[0].to_owned(), y: args[1].to_owned() },
                ),
            ),
        }
    } else if text_eq(name, "binary_op/add") {
        Ok(Operation::Exact(ExactOp::Arithmetic { op: ArithmeticOp::Add }))
    } else if text_eq(name, "binary_op/sub") {
        Ok(Operation::Exact(ExactOp::Arithmetic { op: ArithmeticOp::Sub }))
    } else if text_eq(name, "binary_op/mul") {
        Ok(Operation::Exact(ExactOp::Arithmetic { op: ArithmeticOp::Mul }))
    } else if text_eq(name, "binary_op/div") {
        Ok(Operation::Exact(ExactOp::Arithmetic { op: ArithmeticOp::Div }))
    } else if text_eq(name, "filter/mean") {
        Ok(Operation::Exact(ExactOp::Mean { kernel_size: parse_u32(arg).unwrap_or(3) }))
    } else if text_eq(name, "filter/median") {
        Ok(Operation::Exact(ExactOp::Median { kernel_size: parse_u32(arg).unwrap_or(3) }))
    } else if text_eq(name, "filter/gaussian") {
        match expect_arguments(name, arg, 2) {
            Err(e) => Err(e),
            Ok(args) => Ok(
                Operation::Numeric(
                    NumericOp::Gaussian {
                        kernel_size: parse_usize(args[0]).unwrap_or(3),
                        sigma: args[1].to_owned(),
                    },
                ),
            ),
        }
    } else if text_eq(name, "filter/sobel") {
        Ok(Operation::Exact(ExactOp::Sobel { direction: arg.to_owned() }))
    } else if text_eq(name, "filter/laplacian") {
        Ok(Operation::Exact(ExactOp::Laplacian { neighbors: parse_u8(arg).unwrap_or(8) }))
    } else if text_eq(name, "filter/prewitt") {
        Ok(Operation::Exact(ExactOp::Prewitt { direction: arg.to_owned() }))
    } else if text_eq(name, "filter/roberts") {
        Ok(Operation::Exact(ExactOp::Roberts { direction: arg.to_owned() }))
    } else if text_eq(name, "filter/sobel_sharpen") {
        Ok(Operation::Exact(ExactOp::SobelSharpen { direction: arg.to_owned() }))
    } else if text_eq(name, "filter/laplacian_sharpen") {
        Ok(Operation::Exact(ExactOp::LaplacianSharpen { neighbors: parse_u8(arg).unwrap_or(8) }))
    } else if text_eq(name, "filter/prewitt_sharpen") {
        Ok(Operation::Exact(ExactOp::PrewittSharpen { direction: arg.to_owned() }))
    } else if text_eq(name, "filter/roberts_sharpen") {
        Ok(Operation::Exact(ExactOp::RobertsSharpen { direction: arg.to_owned() }))
    } else if text_eq(name, "fft/dft") {
        Ok(Operation::Numeric(NumericOp::Dft))
    } else if text_eq(name, "fft/dft_non_shifted_no_log") {
        Ok(Operation::Numeric(NumericOp::DftNonShiftedNoLog))
    } else if text_eq(name, "fft/dft_non_shifted") {
        Ok(Operation::Numeric(NumericOp::DftNonShifted))
    } else if text_eq(name, "fft/dft_no_log") {
        Ok(Operation::Numeric(NumericOp::DftNoLog))
    } else if text_eq(name, "fft/idft") {
        Ok(Operation::Numeric(NumericOp::Idft))
    } else if text_eq(name, "fft/idft_non_shifted") {
        Ok(Operation::Numeric(NumericOp::IdftNonShifted))
    } else if text_eq(name, "fft/shift_to_center") {
        Ok(Operation::Exact(ExactOp::ShiftToCenter))
    } else if text_eq(name, "fft/homomorphic") {
        match expect_arguments(name, arg, 4) {
            Err(e) => Err(e),
            Ok(args) => Ok(
                Operation::Numeric(
                    NumericOp::Homomorphic {
                        r_l: args[0].to_owned(),
                        r_h: args[1].to_owned(),
                        c: args[2].to_owned(),
                        d0: args[3].to_owned(),
                    },
                ),
            ),
        }
    } else if text_eq(name, "fft/dft_idft") {
        Ok(Operation::Numeric(NumericOp::DftIdft))
    } else if text_eq(name, "fourier_desc") {
        Ok(Operation::Numeric(NumericOp::FourierDesc { nterms: parse_usize(arg).unwrap_or(64) }))
    } else {
        Err(EngineError::InvalidOperation { operation: name.to_owned() })
    }
}

/// What an exact operation makes of an image. Pixel arithmetic takes a second image; every
/// other operation ignores it.
pub open spec fn exact_result(
    op: ExactOp,
    img: ImageModel,
    second: Option<ImageModel>,
) -> ImageModel {
    match op {
        ExactOp::Invert => inverted(img),
        ExactOp::HistEqualize => equalized(img),
        ExactOp::ToGray => ImageModel::Gray(img.to_luma()),
        ExactOp::Translate { x, y } => translated_image(img, offset_or_zero(x), offset_or_zero(y)),
        ExactOp::Resize { width, height } => resized_image(
            img,
            dimension_or(width, img.width()),
            dimension_or(height, img.height()),
        ),
        ExactOp::Mirror { axis } => mirrored_image(img, axis@),
        ExactOp::Arithmetic { op } => match second {
            Some(other) => ImageModel::Rgb(combined(op, img.to_rgb(), other.to_rgb())),
            None => img,
        },
        ExactOp::Mean { kernel_size } => ImageModel::Gray(
            mean_filtered(img.to_luma(), kernel_size),
        ),
        ExactOp::Median { kernel_size } => ImageModel::Gray(
            median_filtered(img.to_luma(), kernel_size),
        ),
        ExactOp::Sobel { direction } => edge_map(img, sobel_kernel(direction@)),
        ExactOp::Laplacian { neighbors } => edge_map(img, laplacian_kernel(neighbors)),
        ExactOp::Prewitt { direction } => edge_map(img, prewitt_kernel(direction@)),
        ExactOp::Roberts { direction } => edge_map(img, roberts_kernel(direction@)),
        ExactOp::SobelSharpen { direction } => sharpened(img, sobel_kernel(direction@)),
        ExactOp::LaplacianSharpen { neighbors } => sharpened(img, laplacian_kernel(neighbors)),
        ExactOp::PrewittSharpen { direction } => sharpened(img, prewitt_kernel(direction@)),
        ExactOp::RobertsSharpen { direction } => sharpened(img, roberts_kernel(direction@)),
        ExactOp::ShiftToCenter => ImageModel::Gray(shifted(img.to_luma())),
    }
}

/// The model of an optional second image.
pub open spec fn second_model(second: Option<&Image>) -> Option<ImageModel> {
    match second {
        Some(other) => Some(other@),
        None => None,
    }
}

/// Whether an exact operation can be performed on an image: pixel arithmetic needs the
/// second image, and histogram equalization, which counts in 32 bits, an image of at most
/// `u32::MAX` pixels.
pub open spec fn applicable(op: ExactOp, img: ImageModel, second: Option<ImageModel>) -> bool {
    &&& op is Arithmetic ==> second is Some
    &&& op is HistEqualize ==> img.width() * img.height() <= u32::MAX
}

/// Performs an exact operation on an image on which it can be performed.
pub fn apply_exact(op: &ExactOp, img: Image, second: Option<&Image>) -> (out: Image)
    requires
        applicable(*op, img@, second_model(second)),
    ensures
        out@ == exact_result(*op, img@, second_model(second)),
{
    match op {
        ExactOp::Invert => invert(img),
        ExactOp::HistEqualize => hist_equalize(img),
        ExactOp::ToGray => to_gray(img),
        ExactOp::Translate { x, y } => translate(img, *x, *y),
        ExactOp::Resize { width, height } => resize(img, *width, *height),
        ExactOp::Mirror { axis } => mirror(img, axis.as_str()),
        ExactOp::Arithmetic { op } => match second {
            Some(other) => apply_binary_arithmetic(*op, &img, other),
            None => img,
        },
        ExactOp::Mean { kernel_size } => mean(&img, *kernel_size),
        ExactOp::Median { kernel_size } => median(&img, *kernel_size),
        ExactOp::Sobel { direction } => sobel(&img, direction.as_str()),
        ExactOp::Laplacian { neighbors } => laplacian(&img, *neighbors),
        ExactOp::Prewitt { direction } => prewitt(&img, direction.as_str()),
        ExactOp::Roberts { direction } => roberts(&img, direction.as_str()),
        ExactOp::SobelSharpen { direction } => sobel_sharpen(&img, direction.as_str()),
        ExactOp::LaplacianSharpen { neighbors } => laplacian_sharpen(&img, *neighbors),
        ExactOp::PrewittSharpen { direction } => prewitt_sharpen(&img, direction.as_str()),
        ExactOp::RobertsSharpen { direction } => roberts_sharpen(&img, direction.as_str()),
        ExactOp::ShiftToCenter => shift_to_center(&img),
    }
}

/// Performs an exact operation on an image; `None` exactly when it cannot be performed.
pub fn try_apply_exact(op: &ExactOp, img: Image, second: Option<&Image>) -> (out: Option<Image>)
    ensures
        out is Some <==> applicable(*op, img@, second_model(second)),
        out matches Some(done) ==> done@ == exact_result(*op, img@, second_model(second)),
{
    let possible = match op {
        ExactOp::Arithmetic { .. } => second.is_some(),
        ExactOp::HistEqualize => area(img.width(), img.height()) <= u32::MAX as u64,
        _ => true,
    };
    if possible {
        Some(apply_exact(op, img, second))
    } else {
        None
    }
}

} // verus!
