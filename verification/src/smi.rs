use vstd::prelude::*;
use crate::errors::{Error, ErrModel};
use crate::clock::{clock_result, clock_unit_to_hz};
use crate::memsize::{mem_unit_to_bytes, parsed_size, size_overflow_risk};
use crate::xml::{
    first_child_tagged_from, first_tagged_from, parse_xml, xml_doc_of, XmlNodeModel,
};

verus! {

/// The fields extracted from the structured (XML) diagnostic output.
#[derive(Debug)]
pub struct SmiOut {
    pub name: String,
    pub cuda_ver: String,
    pub clock_graphics_mhz: u64,
    pub clock_sm_mhz: u64,
    pub clock_mem_mhz: u64,
    pub clock_video_mhz: u64,
    /// Total framebuffer memory in bytes.
    pub mem_bytes: u64,
}

/// Spec-level model of `SmiOut`.
pub ghost struct SmiModel {
    pub name: Seq<char>,
    pub cuda_ver: Seq<char>,
    pub clock_graphics_mhz: int,
    pub clock_sm_mhz: int,
    pub clock_mem_mhz: int,
    pub clock_video_mhz: int,
    pub mem_bytes: int,
}

impl View for SmiOut {
    type V = SmiModel;

    open spec fn view(&self) -> SmiModel {
        SmiModel {
            name: self.name@,
            cuda_ver: self.cuda_ver@,
            clock_graphics_mhz: self.clock_graphics_mhz as int,
            clock_sm_mhz: self.clock_sm_mhz as int,
            clock_mem_mhz: self.clock_mem_mhz as int,
            clock_video_mhz: self.clock_video_mhz as int,
            mem_bytes: self.mem_bytes as int,
        }
    }
}

/// The text of the first node tagged `name`, anywhere in the document.
pub open spec fn field_text(doc: Seq<XmlNodeModel>, name: Seq<char>) -> Result<Seq<char>, ErrModel> {
    match first_tagged_from(doc, 0, name) {
        None => Err(ErrModel::FieldNotFound(name)),
        Some(i) => match doc[i].text {
            None => Err(ErrModel::EmptyField),
            Some(t) => Ok(t),
        },
    }
}

/// The text of the first child of `p` tagged `name`.
pub open spec fn child_text(doc: Seq<XmlNodeModel>, p: int, name: Seq<char>) -> Result<
    Seq<char>,
    ErrModel,
> {
    match first_child_tagged_from(doc, p, 0, name) {
        None => Err(ErrModel::FieldNotFound(name)),
        Some(i) => match doc[i].text {
            None => Err(ErrModel::EmptyField),
            Some(t) => Ok(t),
        },
    }
}

/// A clock string normalized to MHz: parsed to Hz, then divided by 10^6,
/// truncating.
pub open spec fn clock_mhz(s: Seq<char>) -> Result<int, ErrModel> {
    match clock_result(s) {
        Ok(hz) => Ok(hz / 1000000),
        Err(e) => Err(e),
    }
}

/// Everything the structured output must supply: the product name, the CUDA
/// version, the four maximum clocks (under the max-clocks section, in MHz),
/// and the total framebuffer memory (under the fb-memory-usage section, in
/// bytes). Extraction is all-or-nothing; the first failure decides.
pub open spec fn smi_from_doc(doc: Seq<XmlNodeModel>) -> Result<SmiModel, ErrModel> {
    match field_text(doc, "product_name"@) {
        Err(e) => Err(e),
        Ok(name) => match field_text(doc, "cuda_version"@) {
            Err(e) => Err(e),
            Ok(cv) => match first_tagged_from(doc, 0, "max_clocks"@) {
                None => Err(ErrModel::FieldNotFound("max_clocks"@)),
                Some(mc) => match child_text(doc, mc, "graphics_clock"@) {
                    Err(e) => Err(e),
                    Ok(g) => match child_text(doc, mc, "sm_clock"@) {
                        Err(e) => Err(e),
                        Ok(sm) => match child_text(doc, mc, "mem_clock"@) {
                            Err(e) => Err(e),
                            Ok(me) => match child_text(doc, mc, "video_clock"@) {
                                Err(e) => Err(e),
                                Ok(vi) => match first_tagged_from(doc, 0, "fb_memory_usage"@) {
                                    None => Err(ErrModel::FieldNotFound("fb_memory_usage"@)),
                                    Some(fb) => match child_text(doc, fb, "total"@) {
                                        Err(e) => Err(e),
                                        Ok(tot) => match clock_mhz(g) {
                                            Err(e) => Err(e),
                                            Ok(gm) => match clock_mhz(sm) {
                                                Err(e) => Err(e),
                                                Ok(smm) => match clock_mhz(me) {
                                                    Err(e) => Err(e),
                                                    Ok(mm) => match clock_mhz(vi) {
                                                        Err(e) => Err(e),
                                                        Ok(vm) => if size_overflow_risk(tot) {
                                                            Err(ErrModel::MalformedSize)
                                                        } else {
                                                            match parsed_size(tot) {
                                                                None => Err(
                                                                    ErrModel::MalformedSize,
                                                                ),
                                                                Some(b) => Ok(
                                                                    SmiModel {
                                                                        name,
                                                                        cuda_ver: cv,
                                                                        clock_graphics_mhz: gm,
                                                                        clock_sm_mhz: smm,
                                                                        clock_mem_mhz: mm,
                                                                        clock_video_mhz: vm,
                                                                        mem_bytes: b as int,
                                                                    },
                                                                ),
                                                            }
                                                        },
                                                    },
                                                },
                                            },
                                        },
                                    },
                                },
                            },
                        },
                    },
                },
            },
        },
    }
}

/// Parses the structured diagnostic output and extracts the capability
/// fields, exactly as `smi_from_doc` describes on the parsed node table.
pub fn nvidia_smi_from(xml: &str) -> (r: Result<SmiOut, Error>)
    ensures
        match r {
            Ok(o) => xml_doc_of(xml@) matches Some(doc) && smi_from_doc(doc) == Ok::<
                SmiModel,
                ErrModel,
            >(o@),
            Err(e) => match xml_doc_of(xml@) {
                None => e@ == ErrModel::XmlParse,
                Some(doc) => smi_from_doc(doc) == Err::<SmiModel, ErrModel>(e@),
            },
        },
{
    let doc = match parse_xml(xml) {
        Ok(d) => d,
        Err(e) => {
            return Err(e);
        },
    };
    let pn_id = match doc.lookup("product_name") {
        Ok(i) => i,
        Err(e) => {
            return Err(e);
        },
    };
    let name = match doc.node_text(pn_id) {
        Ok(t) => t,
        Err(e) => {
            return Err(e);
        },
    };
    let cv_id = match doc.lookup("cuda_version") {
        Ok(i) => i,
        Err(e) => {
            return Err(e);
        },
    };
    let cuda_ver = match doc.node_text(cv_id) {
        Ok(t) => t,
        Err(e) => {
            return Err(e);
        },
    };
    let mc = match doc.lookup("max_clocks") {
        Ok(i) => i,
        Err(e) => {
            return Err(e);
        },
    };
    let g_id = match doc.lookup_child(mc, "graphics_clock") {
        Ok(i) => i,
        Err(e) => {
            return Err(e);
        },
    };
    let g = match doc.node_text(g_id) {
        Ok(t) => t,
        Err(e) => {
            return Err(e);
        },
    };
    let sm_id = match doc.lookup_child(mc, "sm_clock") {
        Ok(i) => i,
        Err(e) => {
            return Err(e);
        },
    };
    let sm = match doc.node_text(sm_id) {
        Ok(t) => t,
        Err(e) => {
            return Err(e);
        },
    };
    let me_id = match doc.lookup_child(mc, "mem_clock") {
        Ok(i) => i,
        Err(e) => {
            return Err(e);
        },
    };
    let me = match doc.node_text(me_id) {
        Ok(t) => t,
        Err(e) => {
            return Err(e);
        },
    };
    let vi_id = match doc.lookup_child(mc, "video_clock") {
        Ok(i) => i,
        Err(e) => {
            return Err(e);
        },
    };
    let vi = match doc.node_text(vi_id) {
        Ok(t) => t,
        Err(e) => {
            return Err(e);
        },
    };
    let fb = match doc.lookup("fb_memory_usage") {
        Ok(i) => i,
        Err(e) => {
            return Err(e);
        },
    };
    let tot_id = match doc.lookup_child(fb, "total") {
        Ok(i) => i,
        Err(e) => {
            return Err(e);
        },
    };
    let tot = match doc.node_text(tot_id) {
        Ok(t) => t,
        Err(e) => {
            return Err(e);
        },
    };
    let g_hz = match clock_unit_to_hz(g.as_str()) {
        Ok(v) => v,
        Err(e) => {
            return Err(e);
        },
    };
    let sm_hz = match clock_unit_to_hz(sm.as_str()) {
        Ok(v) => v,
        Err(e) => {
            return Err(e);
        },
    };
    let me_hz = match clock_unit_to_hz(me.as_str()) {
        Ok(v) => v,
        Err(e) => {
            return Err(e);
        },
    };
    let vi_hz = match clock_unit_to_hz(vi.as_str()) {
        Ok(v) => v,
        Err(e) => {
            return Err(e);
        },
    };
    let mem_bytes = match mem_unit_to_bytes(tot.as_str()) {
        Ok(b) => b,
        Err(e) => {
            return Err(e);
        },
    };
    Ok(
        SmiOut {
            name,
            cuda_ver,
            clock_graphics_mhz: g_hz / 1000000,
            clock_sm_mhz: sm_hz / 1000000,
            clock_mem_mhz: me_hz / 1000000,
            clock_video_mhz: vi_hz / 1000000,
            mem_bytes,
        },
    )
}

} // verus!
