use sound_packs::config::{ConfigError, PackConfig};
use sound_packs::driver::{
    asset_url, listing_url, metadata_url, on_asset_response, on_listing_response,
    on_metadata_response, out_dir, slice_jobs, MetaOutcome, Mode, RunError, SkipReason,
};
use sound_packs::lister::extract_pack_ids;

fn b(s: &str) -> Vec<u8> {
    s.as_bytes().to_vec()
}

fn valid_meta_body() -> Vec<u8> {
    b(
        "{\"default\": false, \"defines\": {\"5\": [1500, 2000]}, \"id\": \"oreo\", \"includes_numpad\": false, \"key_define_type\": \"single\", \"name\": \"Oreo\", \"sound\": \"sound.ogg\", \"tags\": []}",
    )
}

#[test]
fn lister_drops_empty_extractions_and_keeps_order() {
    let body = b("<a href=\"https://example.net/sound-packs/foo\"></a> <a href=\"https://example.net/sound-packs/\"></a>");
    assert_eq!(extract_pack_ids(&body), vec![b("foo")]);
}

#[test]
fn lister_keeps_duplicates_in_order_of_appearance() {
    let body = b("/sound-packs/alpha\" /sound-packs/beta\" /sound-packs/alpha\"");
    assert_eq!(extract_pack_ids(&body), vec![b("alpha"), b("beta"), b("alpha")]);
}

#[test]
fn lister_ignores_an_unterminated_candidate() {
    let body = b("/sound-packs/alpha\" trailing /sound-packs/never-closed");
    assert_eq!(extract_pack_ids(&body), vec![b("alpha")]);
}

#[test]
fn listing_fetch_failure_is_fatal() {
    let r = on_listing_response(503, &b("ignored"));
    assert_eq!(r.unwrap_err(), RunError::ListingFetch(503));
    let ids = on_listing_response(200, &b("/sound-packs/foo\"")).expect("success");
    assert_eq!(ids, vec![b("foo")]);
}

#[test]
fn urls_follow_both_mode_shapes() {
    let base = b("https://example.net");
    assert_eq!(listing_url(&base), b("https://example.net/sound-packs/"));
    assert_eq!(
        metadata_url(&base, Mode::Catalog, &b("oreo")),
        b("https://example.net/sound-packs/oreo/dist/config.json")
    );
    assert_eq!(
        metadata_url(&base, Mode::SinglePack, &b("oreo")),
        b("https://example.net/sound-packs/sound-pack-oreo/dist/config.json")
    );
    assert_eq!(
        asset_url(&base, Mode::Catalog, &b("oreo"), &b("sound.ogg")),
        b("https://example.net/sound-packs/oreo/dist/sound.ogg")
    );
    assert_eq!(
        asset_url(&base, Mode::SinglePack, &b("oreo"), &b("sound.ogg")),
        b("https://example.net/sound-packs/sound-pack-oreo/dist/sound.ogg")
    );
    assert_eq!(out_dir(Mode::Catalog, &b("oreo")), b("packs/oreo"));
    assert_eq!(out_dir(Mode::SinglePack, &b("oreo")), b("pack-oreo"));
}

#[test]
fn metadata_failures_skip_in_catalog_mode_and_abort_in_single_mode() {
    match on_metadata_response(Mode::Catalog, 404, &b("")) {
        MetaOutcome::Skip(SkipReason::MetaFetch(404)) => {}
        _ => panic!("catalog mode must skip on a non-200 metadata status"),
    }
    match on_metadata_response(Mode::SinglePack, 404, &b("")) {
        MetaOutcome::Abort(RunError::MetaFetch(404)) => {}
        _ => panic!("single-pack mode must abort on a non-200 metadata status"),
    }
    let missing_sound = b(
        "{\"default\": false, \"defines\": {}, \"id\": \"x\", \"includes_numpad\": false, \"key_define_type\": \"k\", \"name\": \"n\", \"tags\": []}",
    );
    match on_metadata_response(Mode::Catalog, 200, &missing_sound) {
        MetaOutcome::Skip(SkipReason::MetaInvalid(ConfigError::MissingSound)) => {}
        _ => panic!("catalog mode must skip a body without a sound field"),
    }
    match on_metadata_response(Mode::SinglePack, 200, &missing_sound) {
        MetaOutcome::Abort(RunError::MetaInvalid(ConfigError::MissingSound)) => {}
        _ => panic!("single-pack mode must abort on a body without a sound field"),
    }
}

#[test]
fn a_skipped_pack_does_not_stop_the_next_one() {
    let bad = b("{\"name\": \"no sound here\"}");
    match on_metadata_response(Mode::Catalog, 200, &bad) {
        MetaOutcome::Skip(_) => {}
        _ => panic!("bad pack must be skipped, not aborted"),
    }
    match on_metadata_response(Mode::Catalog, 200, &valid_meta_body()) {
        MetaOutcome::Accept(cfg) => assert_eq!(cfg.id, b("oreo")),
        _ => panic!("the pack after a skipped one must still be accepted"),
    }
}

#[test]
fn asset_fetch_failure_always_aborts() {
    assert_eq!(on_asset_response(404).unwrap_err(), RunError::AssetFetch(404));
    assert_eq!(on_asset_response(500).unwrap_err(), RunError::AssetFetch(500));
    assert!(on_asset_response(200).is_ok());
}

#[test]
fn slice_jobs_render_trim_times_and_file_names() {
    let cfg = match on_metadata_response(Mode::Catalog, 200, &valid_meta_body()) {
        MetaOutcome::Accept(cfg) => cfg,
        _ => panic!("valid body"),
    };
    let dir = out_dir(Mode::Catalog, &b("oreo"));
    let jobs = slice_jobs(Mode::Catalog, &dir, &cfg.defines);
    assert_eq!(jobs.len(), 1);
    assert_eq!(jobs[0].key, 5);
    assert_eq!(jobs[0].stereo_path, b("packs/oreo/05-stereo.wav"));
    assert_eq!(jobs[0].mono_path, b("packs/oreo/05-1.wav"));
    assert_eq!(jobs[0].start_text, b("1.500"));
    assert_eq!(jobs[0].duration_text, b("2.000"));
    assert!(jobs[0].remove_stereo, "catalog mode removes the stereo intermediate");

    let single_dir = out_dir(Mode::SinglePack, &b("oreo"));
    let single_jobs = slice_jobs(Mode::SinglePack, &single_dir, &cfg.defines);
    assert_eq!(single_jobs[0].stereo_path, b("pack-oreo/05-stereo.wav"));
    assert!(!single_jobs[0].remove_stereo, "single-pack mode keeps the stereo intermediate");

    let trim = jobs[0].trim_args(&b("sound.ogg"));
    assert_eq!(
        trim,
        vec![b("sound.ogg"), b("packs/oreo/05-stereo.wav"), b("trim"), b("1.500"), b("2.000")]
    );
    let mono = jobs[0].mono_args();
    assert_eq!(
        mono,
        vec![b("packs/oreo/05-stereo.wav"), b("-c"), b("1"), b("packs/oreo/05-1.wav")]
    );
}

#[test]
fn large_key_codes_keep_all_hex_digits_in_job_names() {
    let defines = vec![(256, (0, 10))];
    let dir = out_dir(Mode::Catalog, &b("p"));
    let jobs = slice_jobs(Mode::Catalog, &dir, &defines);
    assert_eq!(jobs[0].stereo_path, b("packs/p/100-stereo.wav"));
    assert_eq!(jobs[0].mono_path, b("packs/p/100-1.wav"));
}
