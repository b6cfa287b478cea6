use vstd::prelude::*;
use crate::errors::Error;
use crate::gpu::GpuRecord;

verus! {

/// Raw, unparsed tool output captured for the fallback report.
pub struct DiagnosticDump {
    /// The free-form tool's output.
    pub settings_out: String,
    /// The structured tool's human-readable output.
    pub smi_text: String,
    /// The structured tool's XML output.
    pub smi_xml: String,
}

/// Both the detection and the fallback dump failed; only the two error
/// messages remain.
pub struct DumpFailure {
    pub err_main: String,
    pub err_debug: String,
}

/// The three terminal outcomes of one probe run. Callers tell real GPU data
/// from a debug payload by the variant: only `Gpu` carries a typed record.
pub enum Outcome {
    /// Detection succeeded; the record is to be emitted under a `gpu` key.
    Gpu(GpuRecord),
    /// Detection failed but the raw dump succeeded; the original detection
    /// error is discarded in this branch.
    Dump(DiagnosticDump),
    /// Detection and dump both failed; both messages are reported.
    Failure(DumpFailure),
}

/// The state after the detection attempt: either already terminal, or
/// waiting for the fallback dump to be gathered.
pub enum Assembly {
    Ready(Outcome),
    NeedsFallback(Error),
}

/// First step of the try/fallback chain: a successful detection is terminal;
/// a failed one asks for the fallback dump, carrying the detection error.
pub fn assemble_detection(detection: Result<GpuRecord, Error>) -> (r: Assembly)
    ensures
        match detection {
            Ok(g) => r == Assembly::Ready(Outcome::Gpu(g)),
            Err(e) => r == Assembly::NeedsFallback(e),
        },
{
    match detection {
        Ok(g) => Assembly::Ready(Outcome::Gpu(g)),
        Err(e) => Assembly::NeedsFallback(e),
    }
}

/// Second step: a successful dump is reported as the raw blobs (the original
/// detection error is discarded); a failed dump yields both messages.
pub fn assemble_fallback(err_main: Error, dump: Result<DiagnosticDump, Error>) -> (r: Outcome)
    ensures
        match dump {
            Ok(d) => r == Outcome::Dump(d),
            Err(e) => r matches Outcome::Failure(f) && f.err_main@ == err_main.message_spec()
                && f.err_debug@ == e.message_spec(),
        },
{
    match dump {
        Ok(d) => Outcome::Dump(d),
        Err(e) => {
            let main_msg = err_main.message();
            let debug_msg = e.message();
            Outcome::Failure(DumpFailure { err_main: main_msg, err_debug: debug_msg })
        },
    }
}

} // verus!
