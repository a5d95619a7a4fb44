use dublagem::gpu::{
    format_process_output, nvidia_smi_candidates, nvidia_smi_failure, parse_compute_capability,
    parse_driver_branch, parse_memory_mb, parse_nvidia_smi_output, require_cuda_gpu,
    validate_compute_capability, validate_driver, CudaGpuReport,
};
use dublagem::error::AppError;

#[test]
fn parse_nvidia_smi_csv_report() {
    let report = parse_nvidia_smi_output("NVIDIA GeForce RTX 3060, 581.57, 8.6, 12288\n")
        .expect("report");

    assert_eq!(report.name, "NVIDIA GeForce RTX 3060");
    assert_eq!(report.driver_version, "581.57");
    assert_eq!(report.compute_capability, 86);
    assert_eq!(report.total_memory_mb, Some(12_288));
}

#[test]
fn reject_pre_turing_compute_capability() {
    let report = CudaGpuReport {
        name: "NVIDIA GeForce GTX 1080".to_string(),
        driver_version: "581.57".to_string(),
        compute_capability: 61,
        total_memory_mb: Some(8_192),
    };

    let error = validate_compute_capability(&report).expect_err("unsupported GPU");
    assert!(error.message().contains("compute capability 6.1"));
}

#[test]
fn reject_pre_cuda_13_driver_branch() {
    let report = CudaGpuReport {
        name: "NVIDIA GeForce RTX 3060".to_string(),
        driver_version: "576.80".to_string(),
        compute_capability: 86,
        total_memory_mb: Some(12_288),
    };

    let error = validate_driver(&report).expect_err("old driver");
    assert!(error.message().contains("R580+"));
}

#[test]
fn reads_numbers_out_of_columns() {
    assert_eq!(parse_compute_capability(" 12.0 "), Some(120));
    assert_eq!(parse_compute_capability("7"), Some(70));
    assert_eq!(parse_compute_capability("7.x"), Some(70));
    assert_eq!(parse_compute_capability("x.5"), None);
    assert_eq!(parse_driver_branch("R580.88"), Some(580));
    assert_eq!(parse_driver_branch("driver"), None);
    assert_eq!(parse_memory_mb("[N/A]"), None);
    assert_eq!(parse_memory_mb("24564 MiB"), Some(24_564));
}

#[test]
fn reports_unreadable_nvidia_smi_output() {
    match parse_nvidia_smi_output("\n  \r\n") {
        Err(AppError::SpeechEngineUnavailable(message)) => {
            assert_eq!(message, "nvidia-smi não retornou nenhuma GPU NVIDIA CUDA.")
        }
        _ => panic!("expected no GPU"),
    }
    match parse_nvidia_smi_output("\nGPU, 580\n") {
        Err(AppError::SpeechEngineUnavailable(message)) => {
            assert_eq!(message, "Resposta inesperada do nvidia-smi ao consultar a GPU: GPU, 580")
        }
        _ => panic!("expected an unexpected reply"),
    }
    assert!(parse_nvidia_smi_output("GPU, 580, ?, 1").is_err());
}

#[test]
fn checks_the_whole_gpu_from_nvidia_smi() {
    let report = require_cuda_gpu("NVIDIA RTX 4090, 590.10, 8.9, 24564\r\n").expect("supported");
    assert_eq!(
        report.diagnostic_line(),
        "GPU: NVIDIA RTX 4090, driver: 590.10, compute capability: 8.9, VRAM: 24564 MiB"
    );
    assert!(require_cuda_gpu("Old, 470.10, 8.6, 1").is_err());
    assert!(require_cuda_gpu("Older, 590.10, 5.2, 1").is_err());
}

#[test]
fn describes_process_failures() {
    assert_eq!(format_process_output(b"", b""), "");
    assert_eq!(format_process_output(b" ok \n", b""), " stdout: ok");
    assert_eq!(format_process_output(b"", b"erro"), " stderr: erro");
    assert_eq!(format_process_output(b"a", b"b"), " stdout: a stderr: b");
    assert_eq!(nvidia_smi_candidates(false), vec!["nvidia-smi".to_string()]);
    assert_eq!(nvidia_smi_candidates(true).len(), 3);
    let error = nvidia_smi_failure(&vec!["a: x".to_string(), "b: y".to_string()]);
    assert!(error.message().ends_with("Tentativas: a: x | b: y"));
}

#[test]
fn process_output_is_read_lossily() {
    assert_eq!(format_process_output(b"\xff", b""), " stdout: \u{FFFD}");
    assert_eq!(dublagem::gpu::format_process_text("  a ", ""), " stdout: a");
}
