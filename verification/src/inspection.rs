//! Limits that bound frame captures requested through inspection.
use vstd::prelude::*;

pub mod inspector;

verus! {

/// Bounds on outstanding captures, their dimensions and their retained output.
#[derive(Clone, Copy, Debug, PartialEq, Eq, Structural)]
pub struct CaptureLimits {
    pub max_outstanding: usize,
    pub max_dimension: u32,
    pub max_rgba_bytes: u64,
    pub max_artifact_bytes: usize,
    pub timeout_nanos: u64,
}

/// A capture request or result outside the configured limits.
#[derive(Clone, Copy, Debug, PartialEq, Eq, Structural)]
pub enum CaptureLimitError {
    /// The requested dimensions are zero or too large.
    Dimensions,
    /// The produced artifact, format or checksum is too long to retain.
    Retention,
}

impl CaptureLimitError {
    /// The human-readable description of the failure.
    pub fn message(self) -> (r: &'static str)
        ensures
            self is Dimensions ==> r@ == "capture dimensions exceed configured limits"@,
            self is Retention ==> r@ == "capture output exceeds retention limits"@,
    {
        match self {
            CaptureLimitError::Dimensions => {
                let text = "capture dimensions exceed configured limits";
                proof {
                    reveal_strlit("capture dimensions exceed configured limits");
                }
                text
            },
            CaptureLimitError::Retention => {
                let text = "capture output exceeds retention limits";
                proof {
                    reveal_strlit("capture output exceeds retention limits");
                }
                text
            },
        }
    }
}

impl Default for CaptureLimits {
    /// One outstanding capture of at most 2048 by 2048 pixels and 16 MiB of
    /// RGBA, a 3 MiB artifact, and a five-second timeout.
    fn default() -> (r: Self)
        ensures
            r == (CaptureLimits {
                max_outstanding: 1,
                max_dimension: 2048,
                max_rgba_bytes: 16777216,
                max_artifact_bytes: 3145728,
                timeout_nanos: 5000000000,
            }),
    {
        CaptureLimits {
            max_outstanding: 1,
            max_dimension: 2048,
            max_rgba_bytes: 16777216,
            max_artifact_bytes: 3145728,
            timeout_nanos: 5000000000,
        }
    }
}

impl CaptureLimits {
    /// Accepts nonzero dimensions within the configured maximum whose RGBA
    /// byte count fits the configured budget.
    pub fn validate_dimensions(&self, width: u32, height: u32) -> (r: Result<(), CaptureLimitError>)
        ensures
            r is Ok <==> (width != 0 && height != 0 && width <= self.max_dimension && height
                <= self.max_dimension && width * height * 4 <= self.max_rgba_bytes),
            r matches Err(e) ==> e is Dimensions,
    {
        if width == 0 || height == 0 || width > self.max_dimension || height > self.max_dimension {
            return Err(CaptureLimitError::Dimensions);
        }
        assert(width as int * height as int <= u64::MAX) by (nonlinear_arith)
            requires
                width <= u32::MAX,
                height <= u32::MAX,
        ;
        let pixels = width as u64 * height as u64;
        match pixels.checked_mul(4) {
            Some(bytes) => {
                if bytes > self.max_rgba_bytes {
                    Err(CaptureLimitError::Dimensions)
                } else {
                    Ok(())
                }
            },
            None => Err(CaptureLimitError::Dimensions),
        }
    }

    /// Accepts a produced capture whose artifact fits the retention budget,
    /// with a format of at most 64 bytes and a checksum of at most 128.
    pub fn validate_output(&self, artifact_bytes: usize, format_bytes: usize, checksum_bytes: usize) -> (r: Result<
        (),
        CaptureLimitError,
    >)
        ensures
            r is Ok <==> (artifact_bytes <= self.max_artifact_bytes && format_bytes <= 64 && checksum_bytes
                <= 128),
            r matches Err(e) ==> e is Retention,
    {
        if artifact_bytes > self.max_artifact_bytes || format_bytes > 64 || checksum_bytes > 128 {
            Err(CaptureLimitError::Retention)
        } else {
            Ok(())
        }
    }
}

} // verus!
