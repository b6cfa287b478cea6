use ya_self_test::clock::clock_unit_to_hz;
use ya_self_test::errors::{Error, GpuAttr};
use ya_self_test::gpu::{bandwidth_gib, gpu_status_from};
use ya_self_test::memsize::mem_unit_to_bytes;
use ya_self_test::outcome::{
    assemble_detection, assemble_fallback, Assembly, DiagnosticDump, Outcome,
};
use ya_self_test::settings::nvidia_settings_from;
use ya_self_test::smi::nvidia_smi_from;
use ya_self_test::xml::{Document, XmlNode};

fn node(tag: &str, text: Option<&str>, children: Vec<usize>) -> XmlNode {
    XmlNode {
        tag: tag.to_string(),
        text: text.map(|t| t.to_string()),
        children,
    }
}

#[test]
fn clock_parses_all_units() {
    assert_eq!(clock_unit_to_hz("1830 MHz"), Ok(1_830_000_000));
    assert_eq!(clock_unit_to_hz("1.5 GHz"), Ok(1_500_000_000));
    assert_eq!(clock_unit_to_hz("250 kHz"), Ok(250_000));
    assert_eq!(clock_unit_to_hz("42 Hz"), Ok(42));
}

#[test]
fn clock_units_are_case_insensitive() {
    assert_eq!(clock_unit_to_hz("1830 mhz"), Ok(1_830_000_000));
    assert_eq!(clock_unit_to_hz("2 GHZ"), Ok(2_000_000_000));
    assert_eq!(clock_unit_to_hz("7 hz"), Ok(7));
    assert_eq!(clock_unit_to_hz("3 KhZ"), Ok(3_000));
}

#[test]
fn clock_rounds_to_nearest_hz() {
    assert_eq!(clock_unit_to_hz("2.4 Hz"), Ok(2));
    assert_eq!(clock_unit_to_hz("2.5 Hz"), Ok(3));
    assert_eq!(clock_unit_to_hz("2.6 Hz"), Ok(3));
    assert_eq!(clock_unit_to_hz("0.0000000015 GHz"), Ok(2));
}

#[test]
fn clock_rejects_unknown_unit() {
    assert_eq!(
        clock_unit_to_hz("1830 XHz"),
        Err(Error::InvalidUnit("XHz".to_string()))
    );
    assert_eq!(clock_unit_to_hz("1830"), Err(Error::InvalidUnit(String::new())));
}

#[test]
fn clock_accepts_float_syntax() {
    assert_eq!(clock_unit_to_hz("1e3 GHz"), Ok(1_000_000_000_000));
    assert_eq!(clock_unit_to_hz("+5 Hz"), Ok(5));
    assert_eq!(clock_unit_to_hz("1.5e2 MHz"), Ok(150_000_000));
    assert_eq!(clock_unit_to_hz("1E-3 kHz"), Ok(1));
    assert_eq!(clock_unit_to_hz("5e-1 Hz"), Ok(1));
    assert_eq!(clock_unit_to_hz("4e-1 Hz"), Ok(0));
}

#[test]
fn negative_clock_clamps_to_zero() {
    assert_eq!(clock_unit_to_hz("-3 MHz"), Ok(0));
    assert_eq!(clock_unit_to_hz("-0.9 Hz"), Ok(0));
}

#[test]
fn clock_extremes_clamp() {
    assert_eq!(clock_unit_to_hz("1e30 Hz"), Ok(u64::MAX));
    assert_eq!(
        clock_unit_to_hz("2e999999999999999999999999999999999 Hz"),
        Ok(u64::MAX)
    );
    assert_eq!(
        clock_unit_to_hz("0e999999999999999999999999999999999 Hz"),
        Ok(0)
    );
    assert_eq!(
        clock_unit_to_hz("1e-999999999999999999999999999999999 Hz"),
        Ok(0)
    );
}

#[test]
fn clock_rejects_malformed_exponent() {
    assert_eq!(clock_unit_to_hz("1e MHz"), Err(Error::MalformedNumber));
    assert_eq!(clock_unit_to_hz("1e+ MHz"), Err(Error::MalformedNumber));
    assert_eq!(clock_unit_to_hz("1e5.2 MHz"), Err(Error::MalformedNumber));
}

#[test]
fn clock_rejects_malformed_number() {
    assert_eq!(clock_unit_to_hz("abc MHz"), Err(Error::MalformedNumber));
    assert_eq!(clock_unit_to_hz(""), Err(Error::MalformedNumber));
    assert_eq!(clock_unit_to_hz("1.2.3 MHz"), Err(Error::MalformedNumber));
    assert_eq!(clock_unit_to_hz(". MHz"), Err(Error::MalformedNumber));
}

#[test]
fn memory_sizes_normalize_to_bytes() {
    assert_eq!(mem_unit_to_bytes("24576 MiB"), Ok(24576 * 1024 * 1024));
    assert_eq!(mem_unit_to_bytes("8192 MiB"), Ok(8192 * 1024 * 1024));
    assert_eq!(mem_unit_to_bytes("not a size"), Err(Error::MalformedSize));
}

#[test]
fn twenty_digit_sizes_still_parse() {
    assert_eq!(
        mem_unit_to_bytes("10000000000000000000"),
        Ok(10_000_000_000_000_000_000)
    );
    assert_eq!(mem_unit_to_bytes("00000000000000000001 B"), Ok(1));
    assert_eq!(mem_unit_to_bytes("18446744073709551615"), Ok(u64::MAX));
    assert_eq!(
        mem_unit_to_bytes("9999999999999999999"),
        Ok(9999999999999999999)
    );
}

#[test]
fn rounding_overflow_inputs_are_rejected_not_parsed() {
    assert_eq!(
        mem_unit_to_bytes("184467440737095516155"),
        Err(Error::MalformedSize)
    );
    assert_eq!(
        mem_unit_to_bytes("18446744073709551615.5"),
        Err(Error::MalformedSize)
    );
    assert_eq!(
        mem_unit_to_bytes("184467440737095516154"),
        Err(Error::MalformedSize)
    );
}

const SETTINGS_OK: &str = "Attribute 'CUDACores' (host:0[gpu:0]): 2560.\n\
Attribute 'GPUMemoryInterface' (host:0[gpu:0]): 256.\n\
Attribute 'GPUPerfModes' (host:0[gpu:0]): perfmode=0, memTransferRatemax=14001, memTransferRatemax=16000,\n";

#[test]
fn settings_scan_extracts_all_three() {
    let out = nvidia_settings_from(SETTINGS_OK).unwrap();
    assert_eq!(out.cuda_cores, 2560);
    assert_eq!(out.bus_width, 256);
    assert_eq!(out.mem_rate_max_gib_per_sec, 16000);
}

#[test]
fn transfer_rate_is_max_across_lines() {
    let text = "Attribute 'CUDACores' (host:0[gpu:0]): 2560.\n\
Attribute 'GPUMemoryInterface' (host:0[gpu:0]): 256.\n\
Attribute 'GPUPerfModes' (host:0[gpu:0]): memTransferRatemax=14001,\n\
Attribute 'GPUPerfModes' (host:0[gpu:0]): memTransferRatemax=16000,\n";
    let out = nvidia_settings_from(text).unwrap();
    assert_eq!(out.mem_rate_max_gib_per_sec, 16000);
}

#[test]
fn missing_cuda_cores_is_reported_and_triggers_fallback() {
    let text = "Attribute 'GPUMemoryInterface' (host:0[gpu:0]): 256.\n\
Attribute 'GPUPerfModes' (host:0[gpu:0]): memTransferRatemax=8000,\n";
    let err = nvidia_settings_from(text).unwrap_err();
    assert_eq!(err, Error::AttributeNotFound(GpuAttr::CudaCores));
    let step = assemble_detection(Err(err));
    assert!(matches!(
        step,
        Assembly::NeedsFallback(Error::AttributeNotFound(GpuAttr::CudaCores))
    ));
}

#[test]
fn missing_transfer_rate_and_bus_width_are_reported() {
    let no_rate = "Attribute 'CUDACores' (host:0[gpu:0]): 2560.\n\
Attribute 'GPUMemoryInterface' (host:0[gpu:0]): 256.\n";
    assert_eq!(
        nvidia_settings_from(no_rate).unwrap_err(),
        Error::AttributeNotFound(GpuAttr::TransferRate)
    );
    let no_width = "Attribute 'CUDACores' (host:0[gpu:0]): 2560.\n\
Attribute 'GPUPerfModes' (host:0[gpu:0]): memTransferRatemax=8000,\n";
    assert_eq!(
        nvidia_settings_from(no_width).unwrap_err(),
        Error::AttributeNotFound(GpuAttr::BusWidth)
    );
}

#[test]
fn zero_attribute_counts_as_missing() {
    let text = "Attribute 'CUDACores' (host:0[gpu:0]): 0.\n\
Attribute 'GPUMemoryInterface' (host:0[gpu:0]): 256.\n\
Attribute 'GPUPerfModes' (host:0[gpu:0]): memTransferRatemax=8000,\n";
    assert_eq!(
        nvidia_settings_from(text).unwrap_err(),
        Error::AttributeNotFound(GpuAttr::CudaCores)
    );
}

#[test]
fn bad_attribute_value_is_malformed() {
    let text = "Attribute 'CUDACores' (host:0[gpu:0]): abc.\n";
    assert_eq!(nvidia_settings_from(text).unwrap_err(), Error::MalformedNumber);
}

#[test]
fn bandwidth_formula() {
    assert_eq!(bandwidth_gib(16000, 384), 768);
    assert_eq!(bandwidth_gib(8000, 256), 256);
    assert_eq!(bandwidth_gib(0, 384), 0);
}

const SMI_XML_OK: &str = "<nvidia_smi_log>\n<cuda_version>12.1</cuda_version>\n<gpu>\n\
<product_name>Example GPU</product_name>\n\
<max_clocks>\n<graphics_clock>1000 MHz</graphics_clock>\n<sm_clock>1000 MHz</sm_clock>\n\
<mem_clock>1000 MHz</mem_clock>\n<video_clock>1000 MHz</video_clock>\n</max_clocks>\n\
<fb_memory_usage>\n<total>8192 MiB</total>\n</fb_memory_usage>\n</gpu>\n</nvidia_smi_log>";

#[test]
fn smi_extraction_end_to_end() {
    let smi = nvidia_smi_from(SMI_XML_OK).unwrap();
    assert_eq!(smi.name, "Example GPU");
    assert_eq!(smi.cuda_ver, "12.1");
    assert_eq!(smi.clock_graphics_mhz, 1000);
    assert_eq!(smi.clock_sm_mhz, 1000);
    assert_eq!(smi.clock_mem_mhz, 1000);
    assert_eq!(smi.clock_video_mhz, 1000);
    assert_eq!(smi.mem_bytes, 8192 * 1024 * 1024);
}

#[test]
fn detection_end_to_end() {
    let settings = "Attribute 'CUDACores' (host:0[gpu:0]): 2560.\n\
Attribute 'GPUMemoryInterface' (host:0[gpu:0]): 256.\n\
Attribute 'GPUPerfModes' (host:0[gpu:0]): memTransferRatemax=8000,\n";
    let rec = gpu_status_from(SMI_XML_OK, settings).unwrap();
    assert_eq!(rec.name, "Example GPU");
    assert_eq!(rec.cuda_ver, "12.1");
    assert_eq!(rec.clock_graphics_mhz, 1000);
    assert_eq!(rec.cuda_cores, 2560);
    assert_eq!(rec.bus_width, 256);
    assert_eq!(rec.bandwidth_gib, 256);
    let total_gib = rec.mem_bytes as f32 / 1024.0 / 1024.0 / 1024.0;
    assert!((total_gib - 8.0).abs() < 1e-6);
}

#[test]
fn malformed_xml_is_rejected() {
    assert_eq!(
        gpu_status_from("not xml at all <", SETTINGS_OK).unwrap_err(),
        Error::XmlParse
    );
}

#[test]
fn missing_xml_field_is_reported() {
    let xml = "<nvidia_smi_log><gpu><product_name>X</product_name></gpu></nvidia_smi_log>";
    let err = nvidia_smi_from(xml).unwrap_err();
    assert_eq!(err, Error::FieldNotFound("cuda_version".to_string()));
}

#[test]
fn empty_xml_field_is_reported() {
    let xml = "<nvidia_smi_log><gpu><product_name></product_name></gpu></nvidia_smi_log>";
    let err = nvidia_smi_from(xml).unwrap_err();
    assert_eq!(err, Error::EmptyField);
}

#[test]
fn lookup_finds_first_in_document_order() {
    let doc = Document {
        nodes: vec![
            node("", None, vec![1]),
            node("root", None, vec![2, 3, 4]),
            node("a", Some("first"), vec![]),
            node("b", Some("second"), vec![]),
            node("a", Some("third"), vec![]),
        ],
    };
    let id = doc.lookup("a").unwrap();
    assert_eq!(id, 2);
    assert_eq!(doc.node_text(id).unwrap(), "first");
    assert_eq!(
        doc.lookup("missing").unwrap_err(),
        Error::FieldNotFound("missing".to_string())
    );
}

#[test]
fn lookup_child_searches_direct_children_only() {
    let doc = Document {
        nodes: vec![
            node("", None, vec![1]),
            node("root", None, vec![2, 3]),
            node("section", None, vec![4]),
            node("leaf", Some("outer"), vec![]),
            node("leaf", Some("inner"), vec![]),
        ],
    };
    let sec = doc.lookup("section").unwrap();
    let inner = doc.lookup_child(sec, "leaf").unwrap();
    assert_eq!(doc.node_text(inner).unwrap(), "inner");
    assert_eq!(
        doc.lookup_child(sec, "other").unwrap_err(),
        Error::FieldNotFound("other".to_string())
    );
}

#[test]
fn node_without_text_is_empty_field() {
    let doc = Document {
        nodes: vec![node("only", None, vec![])],
    };
    assert_eq!(doc.node_text(0).unwrap_err(), Error::EmptyField);
}

#[test]
fn successful_detection_is_terminal() {
    let settings = "Attribute 'CUDACores' (host:0[gpu:0]): 2560.\n\
Attribute 'GPUMemoryInterface' (host:0[gpu:0]): 256.\n\
Attribute 'GPUPerfModes' (host:0[gpu:0]): memTransferRatemax=8000,\n";
    let det = gpu_status_from(SMI_XML_OK, settings);
    match assemble_detection(det) {
        Assembly::Ready(Outcome::Gpu(rec)) => assert_eq!(rec.cuda_cores, 2560),
        _ => panic!("detection should be terminal"),
    }
}

#[test]
fn fallback_dump_replaces_the_record() {
    let e = Error::AttributeNotFound(GpuAttr::CudaCores);
    let dump = DiagnosticDump {
        settings_out: "raw settings".to_string(),
        smi_text: "raw text".to_string(),
        smi_xml: "raw xml".to_string(),
    };
    match assemble_fallback(e, Ok(dump)) {
        Outcome::Dump(d) => {
            assert_eq!(d.settings_out, "raw settings");
            assert_eq!(d.smi_text, "raw text");
            assert_eq!(d.smi_xml, "raw xml");
        },
        _ => panic!("a successful dump is reported as the raw blobs"),
    }
}

#[test]
fn double_failure_reports_both_messages() {
    let main_err = Error::ToolInvocation("No such file or directory".to_string());
    let dump_err = Error::ToolInvocation("No such file or directory".to_string());
    let out = assemble_fallback(main_err, Err(dump_err));
    match out {
        Outcome::Failure(f) => {
            assert_eq!(
                f.err_main,
                "tool invocation failed: No such file or directory"
            );
            assert_eq!(
                f.err_debug,
                "tool invocation failed: No such file or directory"
            );
        },
        _ => panic!("both failures must be reported together"),
    }
    assert!(!matches!(
        assemble_fallback(
            Error::ToolInvocation("x".to_string()),
            Err(Error::ToolInvocation("y".to_string()))
        ),
        Outcome::Gpu(_)
    ));
}

#[test]
fn error_messages_name_the_attribute() {
    assert_eq!(
        Error::AttributeNotFound(GpuAttr::CudaCores).message(),
        "CUDACores attribute not found"
    );
    assert_eq!(
        Error::AttributeNotFound(GpuAttr::BusWidth).message(),
        "GPUMemoryInterface attribute not found"
    );
    assert_eq!(
        Error::AttributeNotFound(GpuAttr::TransferRate).message(),
        "memTransferRatemax attribute not found"
    );
    assert_eq!(
        Error::FieldNotFound("max_clocks".to_string()).message(),
        "no node max_clocks in the XML"
    );
    assert_eq!(
        Error::InvalidUnit("XHz".to_string()).message(),
        "Invalid unit XHz"
    );
}
