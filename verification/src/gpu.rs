use vstd::prelude::*;
use crate::errors::{Error, ErrModel};
use crate::numbers::cap_u64;
use crate::settings::{nvidia_settings_from, settings_result};
use crate::smi::{nvidia_smi_from, smi_from_doc};
use crate::xml::xml_doc_of;

verus! {

/// The aggregated GPU capability record, with every unit normalized.
#[derive(Debug)]
pub struct GpuRecord {
    pub name: String,
    pub cuda_ver: String,
    pub clock_graphics_mhz: u64,
    pub clock_sm_mhz: u64,
    pub clock_mem_mhz: u64,
    pub clock_video_mhz: u64,
    /// Total framebuffer memory in bytes.
    pub mem_bytes: u64,
    pub cuda_cores: u64,
    /// Memory bus width in bits.
    pub bus_width: u64,
    /// Maximum memory transfer rate, as the vendor reports it.
    pub mem_rate_max_gib_per_sec: u64,
    /// Derived memory bandwidth in GiB/s.
    pub bandwidth_gib: u64,
}

/// Spec-level model of `GpuRecord`.
pub ghost struct GpuModel {
    pub name: Seq<char>,
    pub cuda_ver: Seq<char>,
    pub clock_graphics_mhz: int,
    pub clock_sm_mhz: int,
    pub clock_mem_mhz: int,
    pub clock_video_mhz: int,
    pub mem_bytes: int,
    pub cuda_cores: int,
    pub bus_width: int,
    pub mem_rate_max_gib_per_sec: int,
    pub bandwidth_gib: int,
}

impl View for GpuRecord {
    type V = GpuModel;

    open spec fn view(&self) -> GpuModel {
        GpuModel {
            name: self.name@,
            cuda_ver: self.cuda_ver@,
            clock_graphics_mhz: self.clock_graphics_mhz as int,
            clock_sm_mhz: self.clock_sm_mhz as int,
            clock_mem_mhz: self.clock_mem_mhz as int,
            clock_video_mhz: self.clock_video_mhz as int,
            mem_bytes: self.mem_bytes as int,
            cuda_cores: self.cuda_cores as int,
            bus_width: self.bus_width as int,
            mem_rate_max_gib_per_sec: self.mem_rate_max_gib_per_sec as int,
            bandwidth_gib: self.bandwidth_gib as int,
        }
    }
}

/// Memory bandwidth in GiB/s from the vendor-reported transfer rate
/// (mega-transfers per second) and the bus width in bits: dividing by 8
/// turns bits into bytes and by 1000 absorbs the decimal mega prefix. The
/// result is clamped into the `u64` range.
pub open spec fn bandwidth_spec(rate: int, width: int) -> int {
    cap_u64(rate * width / 8000)
}

/// Computes the derived memory bandwidth.
pub fn bandwidth_gib(rate: u64, width: u64) -> (r: u64)
    ensures
        r as int == bandwidth_spec(rate as int, width as int),
{
    proof {
        assert((rate as int) * (width as int) <= u128::MAX as int) by (nonlinear_arith)
            requires
                rate as int <= u64::MAX as int,
                width as int <= u64::MAX as int,
                0 <= rate as int,
                0 <= width as int,
        ;
    }
    let p: u128 = rate as u128 * width as u128;
    let b: u128 = p / 8000;
    if b > u64::MAX as u128 {
        u64::MAX
    } else {
        b as u64
    }
}

/// The whole detection outcome over the two captured tool outputs: the
/// structured output decides first, then the free-form output, and on
/// success the record combines both with the derived bandwidth.
pub open spec fn gpu_result(xml: Seq<char>, settings: Seq<char>) -> Result<GpuModel, ErrModel> {
    match xml_doc_of(xml) {
        None => Err(ErrModel::XmlParse),
        Some(doc) => match smi_from_doc(doc) {
            Err(e) => Err(e),
            Ok(smi) => match settings_result(settings) {
                Err(e) => Err(e),
                Ok(st) => Ok(
                    GpuModel {
                        name: smi.name,
                        cuda_ver: smi.cuda_ver,
                        clock_graphics_mhz: smi.clock_graphics_mhz,
                        clock_sm_mhz: smi.clock_sm_mhz,
                        clock_mem_mhz: smi.clock_mem_mhz,
                        clock_video_mhz: smi.clock_video_mhz,
                        mem_bytes: smi.mem_bytes,
                        cuda_cores: st.cuda_cores,
                        bus_width: st.bus_width,
                        mem_rate_max_gib_per_sec: st.mem_rate_max_gib_per_sec,
                        bandwidth_gib: bandwidth_spec(st.mem_rate_max_gib_per_sec, st.bus_width),
                    },
                ),
            },
        },
    }
}

/// Builds the GPU capability record from the two captured tool outputs,
/// exactly as `gpu_result` describes. Extraction is all-or-nothing: the
/// first failing field aborts the attempt with its error.
pub fn gpu_status_from(xml: &str, settings: &str) -> (r: Result<GpuRecord, Error>)
    ensures
        match r {
            Ok(g) => gpu_result(xml@, settings@) == Ok::<GpuModel, ErrModel>(g@),
            Err(e) => gpu_result(xml@, settings@) == Err::<GpuModel, ErrModel>(e@),
        },
{
    let smi = match nvidia_smi_from(xml) {
        Ok(s) => s,
        Err(e) => {
            return Err(e);
        },
    };
    let st = match nvidia_settings_from(settings) {
        Ok(s) => s,
        Err(e) => {
            return Err(e);
        },
    };
    let bw = bandwidth_gib(st.mem_rate_max_gib_per_sec, st.bus_width);
    Ok(
        GpuRecord {
            name: smi.name,
            cuda_ver: smi.cuda_ver,
            clock_graphics_mhz: smi.clock_graphics_mhz,
            clock_sm_mhz: smi.clock_sm_mhz,
            clock_mem_mhz: smi.clock_mem_mhz,
            clock_video_mhz: smi.clock_video_mhz,
            mem_bytes: smi.mem_bytes,
            cuda_cores: st.cuda_cores,
            bus_width: st.bus_width,
            mem_rate_max_gib_per_sec: st.mem_rate_max_gib_per_sec,
            bandwidth_gib: bw,
        },
    )
}

} // verus!
