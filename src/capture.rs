//! Turning a mapped desktop image into an RGBA frame, and the capture's
//! error kinds.

use vstd::prelude::*;

verus! {

/// Failures of screen capture.
#[derive(Debug, Clone, PartialEq, Eq)]
pub enum CaptureError {
    NoMonitors,
    MonitorNotFound(String),
    NotInitialized,
    /// The mapped image cannot hold the frame it claims.
    FrameAcquisition(String),
    Timeout,
    AccessDenied,
    /// The display device was removed or reset: the capture is rebuilt.
    DeviceRemoved,
}

impl CaptureError {
    /// Whether the recorder answers this error by rebuilding the capture.
    pub fn is_device_lost(&self) -> (r: bool)
        ensures
            r == (self is DeviceRemoved || self is AccessDenied),
    {
        match self {
            CaptureError::DeviceRemoved => true,
            CaptureError::AccessDenied => true,
            _ => false,
        }
    }

    /// Whether polling simply goes on.
    pub fn is_transient(&self) -> (r: bool)
        ensures
            r == (self is Timeout),
    {
        match self {
            CaptureError::Timeout => true,
            _ => false,
        }
    }
}

/// Position in a BGRA pixel of byte `k` of the RGBA pixel.
pub open spec fn bgra_index(k: int) -> int {
    if k == 0 {
        2
    } else if k == 2 {
        0
    } else {
        k
    }
}

/// Byte `i` of the RGBA frame read from rows of `pitch` bytes of BGRA
/// pixels, `w` pixels to a row.
pub open spec fn rgba_byte(src: Seq<u8>, w: int, pitch: int, i: int) -> u8 {
    let p = i / 4;
    src[(p / w) * pitch + (p % w) * 4 + bgra_index(i % 4)]
}

/// Whether a mapped image can be read: its rows hold the frame's width, the
/// frame's size fits, and the buffer holds every row.
pub open spec fn mapped_image_ok(len: int, w: int, h: int, pitch: int) -> bool {
    &&& pitch >= w * 4
    &&& w * h * 4 <= usize::MAX
    &&& (h == 0 || w == 0 || (h - 1) * pitch + w * 4 <= len)
}

/// Reads a `width` by `height` frame from rows of `row_pitch` bytes of
/// BGRA pixels into RGBA bytes. Refused where a row is shorter than the
/// frame's width, the frame's size overflows, or the buffer is too short.
pub fn rgba_from_bgra_rows(src: &Vec<u8>, width: u32, height: u32, row_pitch: usize) -> (r: Result<Vec<u8>, CaptureError>)
    ensures
        r is Ok <==> mapped_image_ok(src@.len() as int, width as int, height as int, row_pitch as int),
        r matches Ok(out) ==> out@.len() == width * height * 4 && forall|i: int|
            0 <= i < out@.len() ==> #[trigger] out@[i] == rgba_byte(src@, width as int, row_pitch as int, i),
{
    let w = width as usize;
    let h = height as usize;
    let n = src.len();
    let min_pitch = match w.checked_mul(4) {
        Some(v) => v,
        None => {
            return Err(CaptureError::FrameAcquisition(String::new()));
        },
    };
    if row_pitch < min_pitch {
        return Err(CaptureError::FrameAcquisition(String::new()));
    }
    let total = match w.checked_mul(h) {
        Some(wh) => wh.checked_mul(4),
        None => None,
    };
    if total.is_none() {
        proof {
            if w * h <= usize::MAX {
                assert(w * h * 4 > usize::MAX);
            } else {
                assert(w * h * 4 > usize::MAX) by (nonlinear_arith)
                    requires
                        w * h > usize::MAX,
                ;
            }
        }
        return Err(CaptureError::FrameAcquisition(String::new()));
    }
    if h > 0 && w > 0 {
        let last_row = match (h - 1).checked_mul(row_pitch) {
            Some(v) => v,
            None => {
                assert((h - 1) * row_pitch + w * 4 > n);
                return Err(CaptureError::FrameAcquisition(String::new()));
            },
        };
        if last_row > src.len() || src.len() - last_row < min_pitch {
            return Err(CaptureError::FrameAcquisition(String::new()));
        }
    }
    let mut out: Vec<u8> = Vec::new();
    if w == 0 || h == 0 {
        assert(w * h * 4 == 0) by (nonlinear_arith)
            requires
                w == 0 || h == 0,
        ;
        return Ok(out);
    }
    let mut y: usize = 0;
    while y < h
        invariant
            w == width,
            h == height,
            row_pitch >= w * 4,
            w * h * 4 <= usize::MAX,
            w > 0,
            h > 0,
            (h - 1) * row_pitch + w * 4 <= src@.len(),
            src@.len() <= usize::MAX,
            y <= h,
            out@.len() == y * w * 4,
            forall|i: int| 0 <= i < out@.len() ==> #[trigger] out@[i] == rgba_byte(src@, w as int, row_pitch as int, i),
        decreases h - y,
    {
        proof {
            assert(y * row_pitch + w * 4 <= src@.len()) by (nonlinear_arith)
                requires
                    y < h,
                    (h - 1) * row_pitch + w * 4 <= src@.len(),
                    row_pitch >= 0,
            ;
            assert((y + 1) * w * 4 <= w * h * 4) by (nonlinear_arith)
                requires
                    y < h,
            ;
        }
        let row = y * row_pitch;
        let mut x: usize = 0;
        while x < w
            invariant
                w == width,
                h == height,
                y < h,
                row == y * row_pitch,
                row + w * 4 <= src@.len(),
                src@.len() <= usize::MAX,
                (y + 1) * w * 4 <= w * h * 4,
                w * h * 4 <= usize::MAX,
                x <= w,
                out@.len() == (y * w + x) * 4,
                forall|i: int| 0 <= i < out@.len() ==> #[trigger] out@[i] == rgba_byte(src@, w as int, row_pitch as int, i),
            decreases w - x,
        {
            let p = row + x * 4;
            let ghost base = out@.len() as int;
            proof {
                let pi = y * w + x;
                assert(base == pi * 4);
                assert(pi / (w as int) == y && pi % (w as int) == x) by {
                    vstd::arithmetic::div_mod::lemma_fundamental_div_mod_converse(pi as int, w as int, y as int, x as int);
                }
                vstd::arithmetic::div_mod::lemma_fundamental_div_mod_converse(base, 4, pi as int, 0);
                vstd::arithmetic::div_mod::lemma_fundamental_div_mod_converse(base + 1, 4, pi as int, 1);
                vstd::arithmetic::div_mod::lemma_fundamental_div_mod_converse(base + 2, 4, pi as int, 2);
                vstd::arithmetic::div_mod::lemma_fundamental_div_mod_converse(base + 3, 4, pi as int, 3);
                assert((y * w + x + 1) * 4 <= (y + 1) * w * 4) by (nonlinear_arith)
                    requires
                        x < w,
                ;
            }
            out.push(src[p + 2]);
            out.push(src[p + 1]);
            out.push(src[p]);
            out.push(src[p + 3]);
            proof {
                assert forall|i: int| 0 <= i < out@.len() implies #[trigger] out@[i] == rgba_byte(src@, w as int, row_pitch as int, i) by {
                    if i >= base {
                        assert(i / 4 == y * w + x);
                    }
                }
            }
            x = x + 1;
        }
        proof {
            assert((y * w + w) * 4 == (y + 1) * w * 4) by (nonlinear_arith);
        }
        y = y + 1;
    }
    proof {
        assert(h * w * 4 == w * h * 4) by (nonlinear_arith);
    }
    Ok(out)
}


/// An RGBA frame handed to text recognition.
#[derive(Debug, Clone)]
pub struct FrameData {
    pub width: u32,
    pub height: u32,
    pub data: Vec<u8>,
}

impl FrameData {
    /// Whether the buffer holds exactly `width * height` RGBA pixels.
    pub fn has_expected_size(&self) -> (r: bool)
        ensures
            r == (self.data@.len() == self.width as int * self.height as int * 4),
    {
        let n = self.data.len() as u128;
        let w = self.width as u128;
        let h = self.height as u128;
        assert(w * h <= 0xffff_ffff_ffff_ffff) by (nonlinear_arith)
            requires
                w <= 0xffff_ffff,
                h <= 0xffff_ffff,
        ;
        n == w * h * 4
    }
}

} // verus!
