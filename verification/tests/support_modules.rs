use std::collections::BTreeMap;

use core_probe::config_persistence::config_path_for;
use core_probe::cpu_topology::CpuTopology;
use core_probe::embedded::{join_path, temp_dir_name, ExtractedBinaries};
use core_probe::gui_update_modal::{failure_text, spinner_char, update_title, AppUpdatePhase, AppUpdateState};
use core_probe::mprime_runner::{launch_cpu, ld_library_path, parse_thread_ids, working_dir_arg};
use core_probe::updater::ReleaseInfo;

#[test]
fn binaries_are_laid_out_inside_the_temporary_directory() {
    let b = ExtractedBinaries::in_dir("/tmp/core-probe-1234".to_string());
    assert_eq!(b.temp_dir, "/tmp/core-probe-1234");
    assert_eq!(b.mprime_path, "/tmp/core-probe-1234/mprime");
    assert_eq!(b.lib_dir, "/tmp/core-probe-1234/lib");
}

#[test]
fn path_join_adds_one_separator() {
    assert_eq!(join_path("/a/", "b"), "/a/b");
    assert_eq!(join_path("/a", "b"), "/a/b");
    assert_eq!(join_path("", "b"), "b");
    assert_eq!(temp_dir_name("xyz"), "core-probe-xyz");
}

#[test]
fn settings_live_under_the_home_config_directory() {
    assert_eq!(config_path_for("/home/u"), "/home/u/.config/core-probe/config.json");
}

fn topology() -> CpuTopology {
    CpuTopology {
        vendor: "AuthenticAMD".to_string(),
        model_name: "AMD".to_string(),
        physical_core_count: 2,
        logical_cpu_count: 3,
        core_map: BTreeMap::from([(0, vec![0, 12]), (8, vec![6]), (9, vec![])]),
        bios_map: BTreeMap::new(),
        physical_map: BTreeMap::new(),
        cpu_brand: None,
        cpu_frequency_mhz: None,
    }
}

#[test]
fn mprime_is_pinned_to_the_first_logical_cpu() {
    let t = topology();
    assert_eq!(launch_cpu(&t, 0), Ok(0));
    assert_eq!(launch_cpu(&t, 8), Ok(6));
    assert_eq!(launch_cpu(&t, 9), Err("physical core 9 not found in topology map".to_string()));
    assert_eq!(launch_cpu(&t, 3), Err("physical core 3 not found in topology map".to_string()));
}

#[test]
fn library_path_puts_bundled_libraries_first() {
    assert_eq!(ld_library_path("/t/lib", Some("/usr/lib")), "/t/lib:/usr/lib");
    assert_eq!(ld_library_path("/t/lib", Some("")), "/t/lib");
    assert_eq!(ld_library_path("/t/lib", None), "/t/lib");
    assert_eq!(working_dir_arg("/t/iteration-1/core-0"), "-w/t/iteration-1/core-0");
}

#[test]
fn thread_ids_are_read_until_a_bad_entry() {
    assert_eq!(parse_thread_ids(&vec!["12".to_string(), "13".to_string()]), Ok(vec![12, 13]));
    assert_eq!(
        parse_thread_ids(&vec!["12".to_string(), "x".to_string(), "y".to_string()]),
        Err("invalid thread id 'x'".to_string())
    );
}

#[test]
fn update_dialog_texts() {
    let state = AppUpdateState {
        release: ReleaseInfo { version: "0.2.0".to_string(), body: "notes".to_string() },
        phase: AppUpdatePhase::Failed,
        status_message: None,
        spinner_tick: 5,
    };
    assert_eq!(update_title(&state.release), "Update available: v0.2.0");
    assert_eq!(failure_text(&state), "Unknown error");
    assert_eq!(spinner_char(state.spinner_tick), "\u{25d3}");
    assert_eq!(spinner_char(4), spinner_char(0));
}
