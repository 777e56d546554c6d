//! Verified core of core-probe: the parsers, decoders, classifiers, state
//! machines and report builders of the AMD per-core stability tester.
pub mod text;
pub mod benchmark;
pub mod cli;
pub mod co_offsets;
pub mod co_decoder;
pub mod co_heuristic;
pub mod co_reader;
pub mod co_tier;
pub mod config_persistence;
pub mod coordinator;
pub mod cpu_load_poller;
pub mod cpu_topology;
pub mod embedded;
pub mod error_parser;
pub mod gui;
pub mod gui_events;
pub mod gui_qr;
pub mod gui_theme;
pub mod gui_update_modal;
pub mod gui_widgets;
pub mod hii_extractor;
pub mod hii_question;
pub mod ifr_parser;
pub mod mce_monitor;
pub mod mprime_config;
pub mod mprime_runner;
pub mod pattern;
pub mod report;
pub mod signal_handler;
pub mod thermal_monitor;
pub mod uefi_reader;
pub mod updater;
