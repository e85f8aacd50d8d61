//! Thread counts, parity verdicts, selectors, sampling and small readers.

use camelid::attention_trace::{
    map_attention_head_to_kv_head, sampled_attention_trace_heads,
    sampled_attention_trace_positions, GqaHeadMapping,
};
use camelid::layer_selector::diagnostic_zero_delta_value;
use camelid::proc_status::parse_proc_status_rss_kib;
use camelid::resident_parity::{
    record_resident_parity_fail, resident_parity_forbids, ResidentParityVerdicts,
};
use camelid::text::{
    decimal_text, find_char, list_text, parse_digits, parse_unsigned, text_eq, trim_text,
};
use camelid::thread_policy::{resolve_decode_thread_count_from, resolve_prefill_thread_count_from};

#[test]
fn resident_parity_forbids_reflects_the_cached_verdict() {
    let mut verdicts = ResidentParityVerdicts::new();
    let key = 0x5A5A_A5A5_1234_5678_u64;
    assert!(
        !resident_parity_forbids(&verdicts, key),
        "no verdict -> not forbidden"
    );
    verdicts.insert(key, true);
    assert!(
        !resident_parity_forbids(&verdicts, key),
        "PASS verdict -> not forbidden"
    );
    verdicts.insert(key, false);
    assert!(
        resident_parity_forbids(&verdicts, key),
        "FAIL verdict -> forbidden"
    );
    // The fail-closed backstop (used when the probe panics) records a FAIL for a fresh key.
    let panic_key = 0x1357_9BDF_2468_ACE0_u64;
    assert!(
        !resident_parity_forbids(&verdicts, panic_key),
        "unprobed -> not forbidden"
    );
    record_resident_parity_fail(&mut verdicts, panic_key);
    assert!(
        resident_parity_forbids(&verdicts, panic_key),
        "recorded FAIL -> forbidden"
    );
    verdicts.remove(key);
    verdicts.remove(panic_key);
    assert!(!resident_parity_forbids(&verdicts, key));
    assert!(!resident_parity_forbids(&verdicts, panic_key));
}

#[test]
fn resolve_prefill_thread_count_widens_only_on_measured_default() {
    // Explicit override wins, including disabling the wider pool.
    assert_eq!(
        resolve_prefill_thread_count_from(Some("6"), false, 16, true),
        Some(6)
    );
    assert_eq!(
        resolve_prefill_thread_count_from(Some(" 12 "), true, 16, true),
        Some(12)
    );
    assert_eq!(
        resolve_prefill_thread_count_from(Some("off"), false, 16, true),
        None
    );
    assert_eq!(
        resolve_prefill_thread_count_from(Some("GLOBAL"), false, 16, true),
        None
    );
    assert_eq!(
        resolve_prefill_thread_count_from(Some("0"), false, 16, true),
        None
    );
    // Unparseable / non-positive overrides fall back to the global pool.
    assert_eq!(
        resolve_prefill_thread_count_from(Some("abc"), false, 16, true),
        None
    );

    // No override: widen to logical cores only on a measured target...
    assert_eq!(
        resolve_prefill_thread_count_from(None, false, 16, true),
        Some(16)
    );
    // ...never on unmeasured targets...
    assert_eq!(
        resolve_prefill_thread_count_from(None, false, 16, false),
        None
    );
    // ...and never silently over an operator's hand-pinned global thread count.
    assert_eq!(
        resolve_prefill_thread_count_from(None, true, 16, true),
        None
    );
}

#[test]
fn resolve_decode_thread_count_promotes_physical_default_with_kill_switch() {
    // No flags, no policy input: no decode pool (pre-promotion inline path).
    assert_eq!(
        resolve_decode_thread_count_from(None, false, 16, None),
        None
    );
    // Promoted default policy: dedicated pool at detected physical cores...
    assert_eq!(
        resolve_decode_thread_count_from(None, false, 16, Some(8)),
        Some(8)
    );
    // ...including physical == global (the isolation configuration)...
    assert_eq!(
        resolve_decode_thread_count_from(None, false, 8, Some(8)),
        Some(8)
    );
    // ...but never wider than an operator-narrowed global.
    assert_eq!(
        resolve_decode_thread_count_from(None, false, 4, Some(8)),
        None
    );
    // Explicit width wins over the policy.
    assert_eq!(
        resolve_decode_thread_count_from(Some("4"), false, 16, Some(8)),
        Some(4)
    );
    assert_eq!(
        resolve_decode_thread_count_from(Some(" 6 "), true, 16, Some(8)),
        Some(6)
    );
    // Explicit 0/off is the KILL SWITCH: disables the pool entirely, over
    // both the dedicated flag and the default policy.
    assert_eq!(
        resolve_decode_thread_count_from(Some("0"), true, 16, Some(8)),
        None
    );
    assert_eq!(
        resolve_decode_thread_count_from(Some("off"), false, 16, Some(8)),
        None
    );
    // Empty/invalid specs fall through to dedicated, then the policy.
    assert_eq!(
        resolve_decode_thread_count_from(Some(""), false, 16, Some(8)),
        Some(8)
    );
    assert_eq!(
        resolve_decode_thread_count_from(Some("abc"), true, 16, None),
        Some(16)
    );
    assert_eq!(
        resolve_decode_thread_count_from(Some("abc"), false, 16, None),
        None
    );
    // Dedicated alone isolates at the global width.
    assert_eq!(
        resolve_decode_thread_count_from(None, true, 12, None),
        Some(12)
    );
}

#[test]
fn parses_linux_proc_status_rss_kib() {
    assert_eq!(
        parse_proc_status_rss_kib("Name:\tcamelid\nVmRSS:\t  12345 kB\n"),
        Some(12_345)
    );
}

#[test]
fn zero_delta_selector_accepts_all_none_and_layer_lists() {
    assert!(diagnostic_zero_delta_value("TEST_ZERO", "all", 7).unwrap());
    assert!(diagnostic_zero_delta_value("TEST_ZERO", "true", 7).unwrap());
    assert!(!diagnostic_zero_delta_value("TEST_ZERO", "none", 7).unwrap());
    assert!(!diagnostic_zero_delta_value("TEST_ZERO", "", 7).unwrap());
    assert!(diagnostic_zero_delta_value("TEST_ZERO", "1, 7, 9", 7).unwrap());
    assert!(!diagnostic_zero_delta_value("TEST_ZERO", "1, 2, 9", 7).unwrap());
    assert!(diagnostic_zero_delta_value("TEST_ZERO", "oops", 7).is_err());
}

#[test]
fn gqa_head_mapping_supports_grouped_and_modulo_indexing() {
    assert_eq!(
        map_attention_head_to_kv_head(0, 2, 2, GqaHeadMapping::Grouped),
        0
    );
    assert_eq!(
        map_attention_head_to_kv_head(1, 2, 2, GqaHeadMapping::Grouped),
        0
    );
    assert_eq!(
        map_attention_head_to_kv_head(2, 2, 2, GqaHeadMapping::Grouped),
        1
    );
    assert_eq!(
        map_attention_head_to_kv_head(3, 2, 2, GqaHeadMapping::Grouped),
        1
    );

    assert_eq!(
        map_attention_head_to_kv_head(0, 2, 2, GqaHeadMapping::Modulo),
        0
    );
    assert_eq!(
        map_attention_head_to_kv_head(1, 2, 2, GqaHeadMapping::Modulo),
        1
    );
    assert_eq!(
        map_attention_head_to_kv_head(2, 2, 2, GqaHeadMapping::Modulo),
        0
    );
    assert_eq!(
        map_attention_head_to_kv_head(3, 2, 2, GqaHeadMapping::Modulo),
        1
    );
}

#[test]
fn attention_trace_samples_prompt_prefix_and_current_tail_positions() {
    assert_eq!(sampled_attention_trace_positions(0), Vec::<usize>::new());
    assert_eq!(sampled_attention_trace_positions(3), vec![0, 1, 2]);
    assert_eq!(
        sampled_attention_trace_positions(8),
        vec![0, 1, 2, 3, 4, 5, 6, 7]
    );
    assert_eq!(
        sampled_attention_trace_positions(18),
        vec![0, 1, 2, 3, 14, 15, 16, 17]
    );
}

#[test]
fn attention_trace_samples_gqa_kv_group_anchors_and_tail_heads() {
    assert_eq!(
        sampled_attention_trace_heads(4, 2, 2, GqaHeadMapping::Grouped),
        vec![0, 1, 2, 3]
    );
    assert_eq!(
        sampled_attention_trace_heads(32, 8, 4, GqaHeadMapping::Grouped),
        vec![0, 8, 16, 24, 28, 29, 30, 31]
    );
    assert_eq!(
        sampled_attention_trace_heads(32, 8, 4, GqaHeadMapping::Modulo),
        vec![0, 1, 2, 3, 28, 29, 30, 31]
    );
}

#[test]
fn proc_status_without_a_number() {
    assert_eq!(parse_proc_status_rss_kib(""), None);
    assert_eq!(parse_proc_status_rss_kib("Name:\tcamelid\n"), None);
    assert_eq!(parse_proc_status_rss_kib("VmRSS:\n12345 kB\n"), None);
    assert_eq!(parse_proc_status_rss_kib("VmRSS: lots kB"), None);
    assert_eq!(parse_proc_status_rss_kib("XVmRSS: 1\nVmRSS: 77"), Some(77));
    assert_eq!(
        parse_proc_status_rss_kib("VmRSS: 18446744073709551616 kB"),
        None
    );
}

#[test]
fn selector_errors_name_the_variable() {
    assert_eq!(
        diagnostic_zero_delta_value("TEST_ZERO", "1,,2", 1),
        Err(
            "TEST_ZERO must be all, none, or a comma-separated list of layers".to_string()
        )
    );
    assert_eq!(diagnostic_zero_delta_value("TEST_ZERO", " 7 ", 7), Ok(true));
    assert_eq!(diagnostic_zero_delta_value("TEST_ZERO", " all ", 0), Ok(true));
}

#[test]
fn every_kv_head_serves_its_share() {
    for mapping in [GqaHeadMapping::Grouped, GqaHeadMapping::Modulo] {
        let mut served = vec![0usize; 4];
        for head in 0..32 {
            served[map_attention_head_to_kv_head(head, 8, 4, mapping)] += 1;
        }
        assert_eq!(served, vec![8; 4]);
    }
}

#[test]
fn positions_around_the_edges() {
    assert_eq!(
        sampled_attention_trace_positions(9),
        vec![0, 1, 2, 3, 5, 6, 7, 8]
    );
}

#[test]
fn decimal_texts_read_back() {
    for n in [0usize, 7, 10, 99, 100, 12_345, usize::MAX] {
        let text = decimal_text(n);
        assert_eq!(text, n.to_string());
        let chars: Vec<char> = text.chars().collect();
        assert_eq!(parse_digits(&chars, usize::MAX as u64), Some(n as u64));
    }
}

#[test]
fn numbers_are_bounded() {
    let chars: Vec<char> = "256".chars().collect();
    assert_eq!(parse_digits(&chars, 255), None);
    assert_eq!(parse_digits(&chars, 256), Some(256));
    assert_eq!(parse_digits(&[], 5), None);
    let plus: Vec<char> = "+12".chars().collect();
    assert_eq!(parse_digits(&plus, 99), None);
    assert_eq!(parse_unsigned(&plus, 99), Some(12));
    assert_eq!(parse_unsigned(&['+'], 99), None);
}

#[test]
fn texts_are_trimmed_and_compared() {
    assert_eq!(trim_text(" \t a b \u{3000}\n"), "a b");
    assert_eq!(trim_text("  "), "");
    assert!(text_eq("ab", "ab"));
    assert!(!text_eq("ab", "abc"));
    assert!(!text_eq("ab", "ac"));
    assert_eq!(find_char(&['a', '_', '_'], '_'), 1);
    assert_eq!(find_char(&['a'], '_'), 1);
    assert_eq!(list_text(&[]), "[]");
    assert_eq!(list_text(&[1]), "[1]");
    assert_eq!(list_text(&[1, 64, 7]), "[1, 64, 7]");
}
