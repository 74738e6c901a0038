use chain_notes::compose::{
    auto_quote, draft_problem, dust_applies, exact_line, exact_quote, extra_outputs, fit_check,
    gift_suffix, input_kinds, note_fits, note_fold_amount, over_after_edit, oversize_step,
    payload_lens_for, payload_outputs, rate_source, recipient_count, recipient_list, resolve_gift,
    strip_breaks, too_large_line, Draft, FitCheck, InputKind, Quote, RateSource, RecipientCheck,
    Shape,
};

#[test]
fn a_note_fits_up_to_the_relay_limit() {
    assert!(note_fits(Some(100_000)));
    assert!(!note_fits(Some(100_001)));
    assert!(!note_fits(None));
    assert_eq!(fit_check(80, Some(5), Some(5)), FitCheck::Fits);
    assert_eq!(fit_check(80, None, Some(5)), FitCheck::FitsAtStandard);
    assert_eq!(fit_check(80, None, None), FitCheck::HardWall);
    assert_eq!(fit_check(100_000, None, Some(5)), FitCheck::HardWall);
}

#[test]
fn payloads_carry_the_whole_body() {
    let lens = payload_lens_for(150, false, 80, 40, 12).unwrap();
    assert_eq!(lens, vec![80, 80, 26]);
    let lens = payload_lens_for(136, false, 80, 40, 12).unwrap();
    assert_eq!(lens, vec![80, 80]);
    let lens = payload_lens_for(1, true, 80, 40, 12).unwrap();
    assert_eq!(lens, vec![53]);
    assert_eq!(payload_lens_for(255 * 68, false, 80, 40, 12).unwrap().len(), 255);
}

#[test]
fn bodies_that_cannot_be_cut_are_refused() {
    assert_eq!(payload_lens_for(0, false, 80, 40, 12).unwrap_err(), "empty body");
    assert_eq!(
        payload_lens_for(1, false, 12, 40, 12).unwrap_err(),
        "max_payload smaller than header"
    );
    assert_eq!(
        payload_lens_for(255 * 68 + 1, false, 80, 40, 12).unwrap_err(),
        "too large (> 255 chunks)"
    );
    assert_eq!(
        payload_lens_for(usize::MAX, false, 80, 40, 12).unwrap_err(),
        "too large (> 255 chunks)"
    );
}

#[test]
fn drafts_are_refused_for_the_first_reason() {
    let ok = RecipientCheck::Valid { spk_len: 22, taproot: false };
    assert_eq!(
        draft_problem(0, 0, 0, RecipientCheck::Invalid, true, "signet").unwrap(),
        "Type to see the cost."
    );
    assert_eq!(
        draft_problem(1, 0, 0, RecipientCheck::Invalid, true, "signet").unwrap(),
        "No funds — fund the address and import a sync bundle."
    );
    assert_eq!(
        draft_problem(1, 1, 0, RecipientCheck::Invalid, true, "signet").unwrap(),
        "Enter a valid signet recipient address."
    );
    assert_eq!(
        draft_problem(1, 0, 5, ok, true, "signet").unwrap(),
        "Private directed notes need a taproot (…1p…) recipient — or switch to Public."
    );
    assert_eq!(draft_problem(1, 1, 0, ok, false, "signet"), None);
    assert_eq!(draft_problem(1, 1, 0, RecipientCheck::Itself, true, "signet"), None);
    let taproot = RecipientCheck::Valid { spk_len: 34, taproot: true };
    assert_eq!(draft_problem(1, 1, 0, taproot, true, "signet"), None);
}

#[test]
fn line_breaks_end_the_draft() {
    assert_eq!(strip_breaks("a\nb\n"), Some("ab".to_string()));
    assert_eq!(strip_breaks("ab"), None);
    assert_eq!(strip_breaks(""), None);
}

#[test]
fn gifts_are_floored_at_the_dust_limit() {
    assert_eq!(resolve_gift(false, "5000", 330), 0);
    assert_eq!(resolve_gift(true, " 5000 ", 330), 5000);
    assert_eq!(resolve_gift(true, "1", 330), 330);
    assert_eq!(resolve_gift(true, "", 330), 330);
    assert_eq!(resolve_gift(true, "-9", 330), 330);
    assert_eq!(resolve_gift(true, "99999999999999999999", 330), 330);
    assert_eq!(recipient_count(true, 2), 3);
    assert_eq!(recipient_count(false, 2), 0);
}

#[test]
fn the_oversize_dialog_shows_once_per_crossing() {
    let (over, dialog) = oversize_step(false, FitCheck::FitsAtStandard);
    assert!(over);
    let dialog = dialog.unwrap();
    assert!(dialog.offer_bump);
    assert_eq!(
        dialog.message,
        "This note doesn't fit at your current chunk size. Switch to Standard (a single large chunk) to fit it in one transaction?"
    );
    let (over, dialog) = oversize_step(over, FitCheck::HardWall);
    assert!(over && dialog.is_none());
    let (over, dialog) = oversize_step(over, FitCheck::Fits);
    assert!(!over && dialog.is_none());
    let (_, dialog) = oversize_step(over, FitCheck::HardWall);
    let dialog = dialog.unwrap();
    assert!(!dialog.offer_bump);
    assert!(dialog.message.starts_with("This note is too large to broadcast. A single Bitcoin"));
    assert!(over_after_edit(true, 1));
    assert!(!over_after_edit(true, 0));
    assert_eq!(too_large_line(Some((3, 9))), "3 chunk(s) · ~9 vB — too large to broadcast");
    assert_eq!(too_large_line(None), "Too large to broadcast (> 255 chunks).");
}

fn draft(n_recipients: usize) -> Draft {
    Draft { text_len: 12, chunks: 1, directed: n_recipients > 0, n_recipients, gift: 330 }
}

#[test]
fn gifts_are_shown_behind_the_fee() {
    assert_eq!(gift_suffix(false, 0, 0), "");
    assert_eq!(gift_suffix(true, 1, 330), " + 330 sats to recipient");
    assert_eq!(gift_suffix(true, 3, 330), " + 3 × 330 = 990 sats to 3 recipients");
}

#[test]
fn an_automatic_note_is_paid_from_the_balance() {
    let (line, ok) = auto_quote(&draft(0), 150, 300, 300, "300 sats", "2");
    assert!(ok);
    assert_eq!(line, "12 bytes · 1 chunk(s) · ~150 vB · ~300 sats @ 2 sat/vB");
    let (line, ok) = auto_quote(&draft(1), 150, 300, 629, "300 sats", "2");
    assert!(!ok);
    assert_eq!(line, "Needs ~630 sats — balance is 629.");
    let (line, ok) = auto_quote(&draft(1), 150, 300, 630, "300 sats", "2");
    assert!(ok);
    assert_eq!(
        line,
        "12 bytes · 1 chunk(s) · ~150 vB · ~300 sats @ 2 sat/vB + 330 sats to recipient"
    );
}

#[test]
fn inputs_and_outputs_of_an_exact_note_are_listed() {
    assert_eq!(
        input_kinds(1, 2),
        vec![InputKind::Taproot, InputKind::P2wpkh, InputKind::P2wpkh]
    );
    assert!(dust_applies(0, 1));
    assert!(!dust_applies(1, 1));
    assert!(!dust_applies(1, 0));
    assert_eq!(extra_outputs(Some(22), true, 25), (vec![22, 34], vec![22, 34, 25]));
    assert_eq!(extra_outputs(None, false, 34), (vec![], vec![34]));
}

#[test]
fn an_exact_note_takes_change_only_above_dust() {
    let with = Shape { vsize: 200, fee: 200 };
    let without = Shape { vsize: 160, fee: 160 };
    assert_eq!(
        exact_quote(1000, 300, with, without, 330),
        Quote { shape: with, ok: true, no_change: false }
    );
    assert_eq!(
        exact_quote(600, 300, with, without, 330),
        Quote { shape: without, ok: true, no_change: true }
    );
    assert_eq!(
        exact_quote(459, 300, with, without, 330),
        Quote { shape: without, ok: false, no_change: true }
    );
    // Enough for change is 830; between 790 and 830 neither shape is right.
    assert!(exact_quote(790, 300, with, without, 330).ok);
    assert!(!exact_quote(791, 300, with, without, 330).ok);
    assert!(exact_quote(830, 300, with, without, 330).ok);
}

#[test]
fn the_cost_of_an_exact_note_is_shown() {
    let with = Shape { vsize: 200, fee: 200 };
    let q = Quote { shape: with, ok: true, no_change: false };
    assert_eq!(
        exact_line(&draft(2), &q, 5000, 990, true, 330, None, "200 sats", "1"),
        "12 bytes · 1 chunk(s) · ~200 vB · ~200 sats @ 1 sat/vB + 2 × 330 = 660 sats to 2 recipients + 330 sats dust to notebook"
    );
    assert_eq!(
        exact_line(&draft(0), &q, 5000, 0, false, 330, Some(9), "200 sats", "1"),
        "12 bytes · 1 chunk(s) · ~200 vB · ~200 sats @ 1 sat/vB + 9 sats leftover (dust rule)"
    );
    let q = Quote { shape: with, ok: false, no_change: true };
    assert_eq!(
        exact_line(&draft(1), &q, 500, 330, false, 330, None, "200 sats", "1"),
        "Needs ~530 sats — selected coins total 500."
    );
}

#[test]
fn folded_change_is_what_the_fee_pays_above_nominal() {
    assert_eq!(note_fold_amount(500, 0, 300), 200);
    assert_eq!(note_fold_amount(500, 1, 300), 0);
    assert_eq!(note_fold_amount(200, 0, 300), 0);
}

#[test]
fn recipients_come_in_output_order() {
    assert_eq!(recipient_list("a", &vec!["b".into(), "c".into()]), vec!["a", "b", "c"]);
    assert!(recipient_list("", &vec!["b".into()]).is_empty());
}

#[test]
fn payload_outputs_are_counted_by_their_opcode() {
    assert_eq!(payload_outputs(&vec![vec![0x6a, 1], vec![], vec![0x51], vec![0x6a]]), 2);
}

#[test]
fn tiers_name_the_source_of_the_rate() {
    assert_eq!(rate_source(0), RateSource::Economy);
    assert_eq!(rate_source(1), RateSource::Normal);
    assert_eq!(rate_source(2), RateSource::Fast);
    assert_eq!(rate_source(3), RateSource::Custom);
    assert_eq!(rate_source(-4), RateSource::Normal);
}
