//! Device selection, offload flags, output buffering and process control.

use llm_orch::backend::{
    after_probe, before_probe, llama_offload_decl, output_lines, shutdown_after_signal,
    shutdown_begin, Backend, DeviceKind, LlamaCppBackend, OffloadDecl, OutputBuffer, PollStep,
    ReadyOutcome, ShutdownStep, OUTPUT_BUFFER_LINES,
};
use llm_orch::spawning::second_phase;

#[test]
fn gpu_env_pins_vulkan_devices() {
    let backend = LlamaCppBackend::new(DeviceKind::Vulkan);
    assert_eq!(
        backend.gpu_env(&[0, 2]),
        vec![("GGML_VK_VISIBLE_DEVICES".to_string(), "0,2".to_string())]
    );
}

#[test]
fn gpu_env_pins_cuda_devices() {
    let backend = LlamaCppBackend::new(DeviceKind::Cuda);
    assert_eq!(
        backend.gpu_env(&[1, 0]),
        // Order is preserved: it has semantics in llama.cpp.
        vec![("CUDA_VISIBLE_DEVICES".to_string(), "1,0".to_string())]
    );
}

#[test]
fn gpu_args_and_env_select_rocm_backend() {
    let backend = LlamaCppBackend::new(DeviceKind::Rocm);
    assert_eq!(
        backend.gpu_args(&[2, 4]),
        vec!["--device".to_string(), "ROCm0,ROCm1".to_string()],
        "--device uses HIP's post-filter visible ranks"
    );
    assert_eq!(
        backend.gpu_env(&[2, 4]),
        vec![("HIP_VISIBLE_DEVICES".to_string(), "2,4".to_string())]
    );
}

#[test]
fn gpu_args_for_non_rocm_backends_are_empty() {
    for kind in [DeviceKind::Vulkan, DeviceKind::Cuda] {
        assert!(LlamaCppBackend::new(kind).gpu_args(&[0, 1]).is_empty());
    }
}

#[test]
fn gpu_env_empty_pool_sets_nothing() {
    for kind in [DeviceKind::Vulkan, DeviceKind::Cuda, DeviceKind::Rocm] {
        let backend = LlamaCppBackend::new(kind);
        assert!(backend.gpu_args(&[]).is_empty());
        assert!(backend.gpu_env(&[]).is_empty());
    }
}

fn s(values: &[&str]) -> Vec<String> {
    values.iter().map(|x| x.to_string()).collect()
}

#[test]
fn offload_decl_scans_flag_forms() {
    let absent = OffloadDecl::Absent;
    let invalid = OffloadDecl::Invalid;
    assert_eq!(llama_offload_decl(&s(&[])), absent);
    assert_eq!(llama_offload_decl(&s(&["--model", "m.gguf"])), absent);
    assert_eq!(
        llama_offload_decl(&s(&["--n-gpu-layers", "99"])),
        OffloadDecl::Layers(99)
    );
    assert_eq!(llama_offload_decl(&s(&["--n-gpu-layers", "0"])), OffloadDecl::Layers(0));
    assert_eq!(llama_offload_decl(&s(&["--n-gpu-layers=42"])), OffloadDecl::Layers(42));
    assert_eq!(llama_offload_decl(&s(&["-ngl", "99"])), OffloadDecl::Layers(99));
    // A negative value is a value, not another flag.
    assert_eq!(llama_offload_decl(&s(&["-ngl", "-1"])), OffloadDecl::Layers(-1));
    assert_eq!(llama_offload_decl(&s(&["--n-offload", "7"])), OffloadDecl::Layers(7));
    assert_eq!(llama_offload_decl(&s(&["--n-gpu-layers"])), invalid);
    assert_eq!(llama_offload_decl(&s(&["--n-gpu-layers", "abc"])), invalid);
    assert_eq!(
        llama_offload_decl(&s(&["--n-gpu-layers", "--model"])),
        invalid
    );
    // Last declaration wins.
    assert_eq!(
        llama_offload_decl(&s(&["--n-gpu-layers", "99", "-ngl", "0"])),
        OffloadDecl::Layers(0)
    );
}

#[test]
fn enforce_cpu_offload_appends_for_llama_programs() {
    for prog in ["llama-server", "/opt/llama/llama-server"] {
        let mut args = s(&["--model", "m.gguf"]);
        LlamaCppBackend::enforce_cpu_offload(prog, &mut args);
        assert!(
            args.ends_with(&["--n-gpu-layers".to_string(), "0".to_string()]),
            "{prog}: {args:?}"
        );
    }
}

#[test]
fn enforce_cpu_offload_respects_existing_declaration() {
    for value in ["0", "99"] {
        let mut args = s(&["--n-gpu-layers", value]);
        LlamaCppBackend::enforce_cpu_offload("llama-server", &mut args);
        assert_eq!(args, s(&["--n-gpu-layers", value]));
    }
}

#[test]
fn enforce_cpu_offload_leaves_other_backends_alone() {
    let mut args = s(&["--config", "x.json", "--backend", "cpu"]);
    LlamaCppBackend::enforce_cpu_offload("audiocpp_server", &mut args);
    assert_eq!(args, s(&["--config", "x.json", "--backend", "cpu"]));
}

#[test]
fn enforcing_twice_adds_the_flag_once() {
    let mut args = s(&["--model", "m.gguf"]);
    LlamaCppBackend::enforce_cpu_offload("llama-server", &mut args);
    let once = args.clone();
    LlamaCppBackend::enforce_cpu_offload("llama-server", &mut args);
    assert_eq!(args, once);
    assert_eq!(args.len(), 4);
}

#[test]
fn health_url_names_the_port() {
    assert_eq!(
        LlamaCppBackend::default().health_url(8080),
        "http://127.0.0.1:8080/health"
    );
}

#[test]
fn poll_readiness_detects_instant_child_exit() {
    assert_eq!(
        before_probe(0, 30, Some(true)),
        PollStep::Done(ReadyOutcome::ChildExited)
    );
    // An exited child is never waited for in a second phase.
    assert_eq!(second_phase(ReadyOutcome::ChildExited), None);
}

#[test]
fn poll_readiness_times_out_for_unresponsive_backend() {
    assert_eq!(before_probe(599, 600, Some(false)), PollStep::Probe);
    assert_eq!(after_probe(None), PollStep::Wait);
    assert_eq!(after_probe(Some(503)), PollStep::Wait);
    assert_eq!(
        before_probe(600, 600, Some(false)),
        PollStep::Done(ReadyOutcome::TimedOut)
    );
}

#[test]
fn a_healthy_answer_means_ready() {
    assert_eq!(after_probe(Some(200)), PollStep::Done(ReadyOutcome::Ready));
    assert_eq!(after_probe(Some(299)), PollStep::Done(ReadyOutcome::Ready));
    assert_eq!(after_probe(Some(300)), PollStep::Wait);
    assert_eq!(second_phase(ReadyOutcome::TimedOut), Some(105));
    assert_eq!(second_phase(ReadyOutcome::Ready), None);
}

#[test]
fn output_buffer_captures_stdout_and_stderr() {
    let mut buf = OutputBuffer::new();
    buf.push_line("stdout", "out-line");
    buf.push_line("stderr", "err-line");
    let lines = output_lines(&buf);
    assert!(
        lines.iter().any(|l| l == "stdout| out-line"),
        "missing stdout line: {lines:?}"
    );
    assert!(
        lines.iter().any(|l| l == "stderr| err-line"),
        "missing stderr line: {lines:?}"
    );
}

#[test]
fn output_buffer_keeps_the_latest_lines() {
    let mut buf = OutputBuffer::new();
    for i in 0..250 {
        buf.push_line("stdout", &format!("{i}"));
    }
    let lines = output_lines(&buf);
    assert_eq!(lines.len(), OUTPUT_BUFFER_LINES);
    assert_eq!(lines[0], "stdout| 50");
    assert_eq!(lines[199], "stdout| 249");
}

#[test]
fn shutdown_escalates() {
    assert_eq!(shutdown_begin(false), ShutdownStep::Done);
    assert_eq!(shutdown_begin(true), ShutdownStep::Terminate);
    assert_eq!(shutdown_after_signal(true, true), ShutdownStep::Done);
    assert_eq!(shutdown_after_signal(true, false), ShutdownStep::Kill);
}

#[test]
fn the_last_declaration_wins_whatever_stands_before_it() {
    let read = |words: &[&str]| {
        let args: Vec<String> = words.iter().map(|w| w.to_string()).collect();
        llama_offload_decl(&args)
    };
    let later: [&[&str]; 3] = [&["-ngl", "7"], &["--n-offload=-1"], &["3", "--n-gpu-layers"]];
    let before: [&[&str]; 4] = [&[], &["-ngl"], &["-ngl", "99"], &["--n-gpu-layers=x", "-m", "f"]];
    for q in later {
        for p in before {
            assert_eq!(read(&[p, q].concat()), read(q), "{p:?} {q:?}");
        }
    }
    assert_eq!(read(later[0]), OffloadDecl::Layers(7));
    assert_eq!(read(later[1]), OffloadDecl::Layers(-1));
    assert_eq!(read(later[2]), OffloadDecl::Invalid);
}

#[test]
fn written_layers_read_back() {
    for flag in ["--n-gpu-layers", "-ngl", "--n-offload"] {
        for n in [i64::MIN, -1, 0, 99, i64::MAX] {
            assert_eq!(
                llama_offload_decl(&[flag.to_string(), n.to_string()]),
                OffloadDecl::Layers(n)
            );
            assert_eq!(
                llama_offload_decl(&[format!("{flag}={n}")]),
                OffloadDecl::Layers(n)
            );
        }
        assert_eq!(llama_offload_decl(&[flag.to_string()]), OffloadDecl::Invalid);
    }
}
