//! QR module matrices, produced by the `qrcode` crate, and the density limit.

use vstd::prelude::*;
use crate::correction::CorrectionLevel;
use crate::error::Error;

verus! {

/// Default maximum QR module count for reliable phone scanning.
/// Corresponds to QR version 25 (117×117 modules).
pub const DEFAULT_MAX_MODULES: usize = 117;

/// The QR symbol that the `qrcode` crate builds for a message at a correction
/// level: its width in modules and its modules in row-major order (`true` for
/// dark), or `None` where the message does not fit in any QR version.
pub uninterp spec fn qr_symbol(message: Seq<u8>, level: CorrectionLevel) -> Option<(nat, Seq<bool>)>;

/// Encodes with `qrcode::QrCode::with_error_correction_level` and reads the
/// symbol back with `width` and `to_colors`.
/// Trusted: the result is `qr_symbol` of the arguments; a built symbol is a
/// normal QR version `v` (1 to 40, so `17 + 4 * v` modules wide: 21 to 177)
/// with `width * width` modules. The error text is the `qrcode` error's message and is not stated.
#[verifier::external_body]
fn qrcode_encode(message: &[u8], level: CorrectionLevel) -> (res: Result<(usize, Vec<bool>), String>)
    ensures
        res is Ok <==> qr_symbol(message@, level) is Some,
        res matches Ok(sym) ==> qr_symbol(message@, level) == Some((sym.0 as nat, sym.1@)),
        res matches Ok(sym) ==> 21 <= sym.0 <= 177 && sym.0 % 4 == 1 && sym.1@.len() == sym.0 * sym.0,
{
    let ec = match level {
        CorrectionLevel::Low => qrcode::EcLevel::L,
        CorrectionLevel::Medium => qrcode::EcLevel::M,
        CorrectionLevel::Quartile => qrcode::EcLevel::Q,
        CorrectionLevel::High => qrcode::EcLevel::H,
    };
    match qrcode::QrCode::with_error_correction_level(message, ec) {
        Ok(code) => Ok((code.width(), code.to_colors().into_iter().map(|c| c == qrcode::Color::Dark).collect())),
        Err(e) => Err(e.to_string()),
    }
}

/// Width and modules (row-major, `true` for dark) of a QR matrix.
pub ghost struct QrModules {
    pub width: nat,
    pub modules: Seq<bool>,
}

impl QrModules {
    /// A square symbol of a normal QR version.
    pub open spec fn wf(self) -> bool {
        21 <= self.width <= 177 && self.modules.len() == self.width * self.width
    }

    /// The module in column `col` and row `row` is dark.
    pub open spec fn dark(self, col: int, row: int) -> bool {
        self.modules[row * self.width + col]
    }
}

/// A boolean QR module matrix.
pub struct QrMatrix {
    modules: Vec<bool>,
    width: usize,
}

impl View for QrMatrix {
    type V = QrModules;

    closed spec fn view(&self) -> QrModules {
        QrModules { width: self.width as nat, modules: self.modules@ }
    }
}

/// Check that a module count is within a density limit.
///
/// Returns `Error::QrCodeTooDense` if `module_count > max_modules`.
pub fn check_qr_density(module_count: usize, max_modules: usize) -> (res: Result<(), Error>)
    ensures
        res is Ok <==> module_count <= max_modules,
        res matches Err(e) ==> e matches Error::QrCodeTooDense { module_count: m, max_modules: x }
            && m == module_count && x == max_modules,
{
    if module_count > max_modules {
        Err(Error::QrCodeTooDense { module_count, max_modules })
    } else {
        Ok(())
    }
}

/// Get the QR module count for a message without rendering.
pub fn qr_module_count(message: &[u8], correction: CorrectionLevel) -> (res: Result<usize, Error>)
    ensures
        res is Ok <==> qr_symbol(message@, correction) is Some,
        res matches Ok(n) ==> qr_symbol(message@, correction).unwrap().0 == n,
        res matches Err(e) ==> e is QrEncode,
{
    let matrix = QrMatrix::encode(message, correction)?;
    Ok(matrix.width())
}

impl QrMatrix {
    /// Encode a byte message into a QR matrix at the given
    /// correction level.
    pub fn encode(message: &[u8], correction: CorrectionLevel) -> (res: Result<Self, Error>)
        ensures
            res is Ok <==> qr_symbol(message@, correction) is Some,
            res matches Ok(m) ==> qr_symbol(message@, correction) == Some((m@.width, m@.modules)),
            res matches Ok(m) ==> m@.wf() && m@.width % 4 == 1,
            res matches Err(e) ==> e is QrEncode,
    {
        match qrcode_encode(message, correction) {
            Ok(sym) => {
                let (width, modules) = sym;
                Ok(QrMatrix { modules, width })
            },
            Err(msg) => Err(Error::QrEncode(msg)),
        }
    }

    /// Module count (width == height for QR codes).
    pub fn width(&self) -> (w: usize)
        ensures
            w == self@.width,
    {
        self.width
    }

    /// True if the module at (col, row) is dark.
    pub fn is_dark(&self, col: usize, row: usize) -> (d: bool)
        requires
            self@.wf(),
            col < self@.width,
            row < self@.width,
        ensures
            d == self@.dark(col as int, row as int),
    {
        assert(row * self.width + col < self.width * self.width) by (nonlinear_arith)
            requires
                col < self.width,
                row < self.width,
        ;
        assert(self.width * self.width <= 177 * 177) by (nonlinear_arith)
            requires
                self.width <= 177,
        ;
        self.modules[row * self.width + col]
    }

    /// All modules, row-major (`true` for dark).
    pub fn modules(&self) -> (m: &Vec<bool>)
        ensures
            m@ == self@.modules,
    {
        &self.modules
    }
}

} // verus!
