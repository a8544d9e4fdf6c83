//! The decisions of the Windows OCR bridge: pixel conversion for the
//! software bitmap, and the error texts of each step (COM results, async
//! status, buffer size, engine creation, Windows version).
use vstd::prelude::*;
use crate::text::{joined, decimal_i64, decimal_u64, hex8, hex_width, owned, signed_decimal, decimal};

verus! {

/// The error code of `RoInitialize` that says the thread was already
/// initialised in another apartment mode (`RPC_E_CHANGED_MODE`).
pub const RPC_E_CHANGED_MODE: u32 = 0x80010106;

/// The 32-bit pattern of an `HRESULT`, as `hr.0 as u32` gives it.
pub open spec fn hresult_bits(hr: i32) -> nat {
    if hr < 0 {
        (hr + 0x1_0000_0000) as nat
    } else {
        hr as nat
    }
}

/// `0x` and the eight upper-case hex digits of an `HRESULT`.
pub open spec fn hresult_hex(hr: i32) -> Seq<char> {
    seq!['0', 'x'] + hex_width(hresult_bits(hr), 8)
}

/// `hr.0 as u32`.
fn hresult_to_bits(hr: i32) -> (res: u32)
    ensures
        res == hresult_bits(hr),
{
    if hr < 0 {
        (hr as i64 + 0x1_0000_0000i64) as u32
    } else {
        hr as u32
    }
}

/// `0x` followed by eight upper-case hex digits of `hr`.
fn hresult_text(hr: i32) -> (res: String)
    ensures
        res@ == hresult_hex(hr),
{
    let digits = hex8(hresult_to_bits(hr));
    let res = joined("0x", digits.as_str());
    proof {
        reveal_strlit("0x");
        assert("0x"@ =~= seq!['0', 'x']);
    }
    res
}

/// One colour channel multiplied by alpha, as `(c * a / 255) as u8`.
pub open spec fn premultiply(c: u8, a: u8) -> u8 {
    ((c as int * a as int) / 255) as u8
}

/// The BGRA image with premultiplied alpha for the RGBA image `rgba`:
/// each pixel `r g b a` becomes `b*a/255 g*a/255 r*a/255 a`.
pub open spec fn premul_bgra_spec(rgba: Seq<u8>) -> Seq<u8> {
    Seq::new(
        rgba.len(),
        |i: int|
            {
                let p = i - i % 4;
                let a = rgba[p + 3];
                if i % 4 == 0 {
                    premultiply(rgba[p + 2], a)
                } else if i % 4 == 1 {
                    premultiply(rgba[p + 1], a)
                } else if i % 4 == 2 {
                    premultiply(rgba[p], a)
                } else {
                    a
                }
            },
    )
}

proof fn lemma_premultiply_bound(c: u8, a: u8)
    ensures
        0 <= (c as int * a as int) / 255 <= a,
        c as int * a as int <= 255 * 255,
{
    assert(0 <= c as int * a as int <= 255 * a as int) by (nonlinear_arith)
        requires
            0 <= c <= 255,
            0 <= a <= 255,
    ;
    assert(0 <= (c as int * a as int) / 255 <= a) by (nonlinear_arith)
        requires
            0 <= c as int * a as int <= 255 * a as int,
    ;
    assert(c as int * a as int <= 255 * 255) by (nonlinear_arith)
        requires
            0 <= c <= 255,
            0 <= a <= 255,
    ;
}

/// `c * a / 255` for one channel.
fn premultiply_exec(c: u8, a: u8) -> (res: u8)
    ensures
        res == premultiply(c, a),
        res <= a,
{
    proof {
        lemma_premultiply_bound(c, a);
    }
    (c as u32 * a as u32 / 255) as u8
}

/// The conversion keeps alpha, never makes a colour channel exceed alpha,
/// and leaves the colours of opaque pixels unchanged (only reordered).
pub proof fn law_premultiplied(rgba: Seq<u8>, p: int)
    requires
        rgba.len() % 4 == 0,
        0 <= p,
        4 * p + 3 < rgba.len(),
    ensures
        premul_bgra_spec(rgba)[4 * p + 3] == rgba[4 * p + 3],
        premul_bgra_spec(rgba)[4 * p] <= rgba[4 * p + 3],
        premul_bgra_spec(rgba)[4 * p + 1] <= rgba[4 * p + 3],
        premul_bgra_spec(rgba)[4 * p + 2] <= rgba[4 * p + 3],
        rgba[4 * p + 3] == 255 ==> {
            &&& premul_bgra_spec(rgba)[4 * p] == rgba[4 * p + 2]
            &&& premul_bgra_spec(rgba)[4 * p + 1] == rgba[4 * p + 1]
            &&& premul_bgra_spec(rgba)[4 * p + 2] == rgba[4 * p]
        },
{
    let a = rgba[4 * p + 3];
    assert((4 * p) % 4 == 0);
    assert((4 * p + 1) % 4 == 1);
    assert((4 * p + 2) % 4 == 2);
    assert((4 * p + 3) % 4 == 3);
    assert(4 * p + 1 - (4 * p + 1) % 4 == 4 * p);
    assert(4 * p + 2 - (4 * p + 2) % 4 == 4 * p);
    assert(4 * p + 3 - (4 * p + 3) % 4 == 4 * p);
    lemma_premultiply_bound(rgba[4 * p + 2], a);
    lemma_premultiply_bound(rgba[4 * p + 1], a);
    lemma_premultiply_bound(rgba[4 * p], a);
    if a == 255 {
        lemma_premultiply_opaque(rgba[4 * p + 2]);
        lemma_premultiply_opaque(rgba[4 * p + 1]);
        lemma_premultiply_opaque(rgba[4 * p]);
    }
}

proof fn lemma_premultiply_opaque(c: u8)
    ensures
        premultiply(c, 255) == c,
{
    assert((c as int * 255) / 255 == c as int) by (nonlinear_arith);
}

/// Converts RGBA pixels to BGRA with premultiplied alpha.
pub fn rgba_to_premul_bgra(rgba: &[u8]) -> (res: Vec<u8>)
    requires
        rgba@.len() % 4 == 0,
    ensures
        res@ == premul_bgra_spec(rgba@),
{
    let n = rgba.len();
    let mut out: Vec<u8> = Vec::new();
    let mut p: usize = 0;
    while p < n
        invariant
            n == rgba@.len(),
            n % 4 == 0,
            p % 4 == 0,
            p <= n,
            out@.len() == p,
            forall|i: int| 0 <= i < p ==> out@[i] == premul_bgra_spec(rgba@)[i],
        decreases n - p,
    {
        let a = rgba[p + 3];
        out.push(premultiply_exec(rgba[p + 2], a));
        out.push(premultiply_exec(rgba[p + 1], a));
        out.push(premultiply_exec(rgba[p], a));
        out.push(a);
        assert forall|i: int| 0 <= i < p + 4 implies out@[i] == premul_bgra_spec(rgba@)[i] by {
            if i >= p {
                assert(i - i % 4 == p);
            }
        }
        p = p + 4;
    }
    assert(out@ =~= premul_bgra_spec(rgba@));
    out
}

/// A COM call result: success for a non-negative `HRESULT`, otherwise
/// `"<context> failed: 0x<hex>"`.
pub fn check_hresult(hr: i32, context: &str) -> (res: Result<(), String>)
    ensures
        hr >= 0 ==> res is Ok,
        hr < 0 ==> (res matches Err(e) && e@ == context@ + " failed: "@ + hresult_hex(hr)),
{
    if hr >= 0 {
        Ok(())
    } else {
        let head = joined(context, " failed: ");
        let code = hresult_text(hr);
        Err(joined(head.as_str(), code.as_str()))
    }
}

/// The outcome of `RoInitialize` (`None` when it succeeded): success, also
/// when the thread was already initialised in another mode; otherwise
/// `"RoInitialize failed: 0x<hex>"`.
pub fn ro_init_result(error_code: Option<i32>) -> (res: Result<(), String>)
    ensures
        error_code is None ==> res is Ok,
        error_code matches Some(c) ==> (hresult_bits(c) == RPC_E_CHANGED_MODE ==> res is Ok),
        error_code matches Some(c) ==> (hresult_bits(c) != RPC_E_CHANGED_MODE ==> (res matches Err(
            e,
        ) && e@ == "RoInitialize failed: "@ + hresult_hex(c))),
{
    match error_code {
        None => Ok(()),
        Some(c) => {
            if hresult_to_bits(c) == RPC_E_CHANGED_MODE {
                Ok(())
            } else {
                let code = hresult_text(c);
                Err(joined("RoInitialize failed: ", code.as_str()))
            }
        },
    }
}

/// `RoInitialize` left the thread initialised: it succeeded, or the
/// thread already was initialised in another apartment mode.
pub open spec fn ro_init_ok(error_code: Option<i32>) -> bool {
    match error_code {
        None => true,
        Some(c) => hresult_bits(c) == RPC_E_CHANGED_MODE,
    }
}

/// Whether the current thread has been initialised for WinRT; the bridge
/// calls `RoInitialize` once per thread, until a call has succeeded.
pub struct RoInitState {
    done: bool,
}

impl RoInitState {
    /// The thread is initialised.
    pub closed spec fn is_done(&self) -> bool {
        self.done
    }

    /// A thread that has not been initialised yet.
    pub fn new() -> (res: RoInitState)
        ensures
            !res.is_done(),
    {
        RoInitState { done: false }
    }

    /// `RoInitialize` has to be called before the thread's next WinRT use.
    pub fn needs_init(&self) -> (res: bool)
        ensures
            res == !self.is_done(),
    {
        !self.done
    }

    /// Records the outcome of a `RoInitialize` call (`None` when it
    /// succeeded) and gives the answer of the initialisation step: once the
    /// thread is initialised it stays so, and no further call is needed.
    pub fn record(&mut self, error_code: Option<i32>) -> (res: Result<(), String>)
        ensures
            res is Ok <==> ro_init_ok(error_code),
            res matches Err(e) ==> error_code matches Some(c) && e@ == "RoInitialize failed: "@
                + hresult_hex(c),
            final(self).is_done() == (old(self).is_done() || ro_init_ok(error_code)),
    {
        let res = ro_init_result(error_code);
        if res.is_ok() {
            self.done = true;
        }
        res
    }
}

/// The error text when an activation factory cannot be had.
pub fn factory_error(class_name: &str, code: i32) -> (res: String)
    ensures
        res@ == "RoGetActivationFactory("@ + class_name@ + "): "@ + hresult_hex(code),
{
    let a = joined("RoGetActivationFactory(", class_name);
    let b = joined(a.as_str(), "): ");
    let c = hresult_text(code);
    joined(b.as_str(), c.as_str())
}

/// A returned interface pointer must not be null.
pub fn check_interface(is_null: bool, context: &str) -> (res: Result<(), String>)
    ensures
        !is_null ==> res is Ok,
        is_null ==> (res matches Err(e) && e@ == context@ + " returned null interface pointer"@),
{
    if is_null {
        Err(joined(context, " returned null interface pointer"))
    } else {
        Ok(())
    }
}

/// One look at the asynchronous OCR operation.
pub enum AsyncStep {
    /// Still running: look again after a short sleep.
    Wait,
    /// Completed: fetch the results.
    Finished,
    /// Give up with this error.
    Failed(String),
}

/// What to do for the async status `status` (0 started, 1 completed,
/// 2 cancelled, 3 error); `past_deadline` says the 30 s limit is over and
/// `error_code` is the operation's error code (read for status 3).
pub fn async_step(status: i32, past_deadline: bool, error_code: i32) -> (res: AsyncStep)
    ensures
        status == 0 && !past_deadline ==> res is Wait,
        status == 0 && past_deadline ==> (res matches AsyncStep::Failed(e) && e@
            == "OCR timed out after 30 s"@),
        status == 1 ==> res is Finished,
        status == 2 ==> (res matches AsyncStep::Failed(e) && e@ == "OCR was cancelled"@),
        status == 3 ==> (res matches AsyncStep::Failed(e) && e@ == "OCR failed: "@ + hresult_hex(
            error_code,
        )),
        !(0 <= status <= 3) ==> (res matches AsyncStep::Failed(e) && e@
            == "OCR unknown async status: "@ + signed_decimal(status as int)),
{
    if status == 0 {
        if past_deadline {
            AsyncStep::Failed(owned("OCR timed out after 30 s"))
        } else {
            AsyncStep::Wait
        }
    } else if status == 1 {
        AsyncStep::Finished
    } else if status == 2 {
        AsyncStep::Failed(owned("OCR was cancelled"))
    } else if status == 3 {
        let code = hresult_text(error_code);
        AsyncStep::Failed(joined("OCR failed: ", code.as_str()))
    } else {
        let num = decimal_i64(status as i64);
        AsyncStep::Failed(joined("OCR unknown async status: ", num.as_str()))
    }
}

/// The locked bitmap buffer must hold all pixel bytes.
pub fn check_buffer_capacity(capacity: u32, needed: usize) -> (res: Result<(), String>)
    ensures
        capacity >= needed ==> res is Ok,
        capacity < needed ==> (res matches Err(e) && e@ == "SoftwareBitmap buffer "@ + decimal(
            capacity as nat,
        ) + " too small for "@ + decimal(needed as nat) + " pixel bytes"@),
{
    if (capacity as u64) < (needed as u64) {
        let a = decimal_u64(capacity as u64);
        let b = decimal_u64(needed as u64);
        let s1 = joined("SoftwareBitmap buffer ", a.as_str());
        let s2 = joined(s1.as_str(), " too small for ");
        let s3 = joined(s2.as_str(), b.as_str());
        Err(joined(s3.as_str(), " pixel bytes"))
    } else {
        Ok(())
    }
}

/// The OCR engine must have been created.
pub fn check_engine(is_null: bool) -> (res: Result<(), String>)
    ensures
        !is_null ==> res is Ok,
        is_null ==> (res matches Err(e) && e@
            == "Failed to create OcrEngine — no supported OCR language pack is installed."@),
{
    if is_null {
        Err(owned("Failed to create OcrEngine — no supported OCR language pack is installed."))
    } else {
        Ok(())
    }
}

/// OCR needs Windows 8 or later: Windows 7 (NT 6.1) is refused.
pub fn check_ocr_supported(major: u32, minor: u32) -> (res: Result<(), String>)
    ensures
        !(major == 6 && minor == 1) ==> res is Ok,
        major == 6 && minor == 1 ==> (res matches Err(e) && e@ == "OCR requires Windows 8 or later"@),
{
    if major == 6 && minor == 1 {
        Err(owned("OCR requires Windows 8 or later"))
    } else {
        Ok(())
    }
}

} // verus!
