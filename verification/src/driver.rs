//! The pipeline's decisions: the URLs it fetches, the per-key slice jobs
//! it derives from a configuration, and what a response's status means for
//! the run — skip the pack, or abort — in each operating mode.

use vstd::prelude::*;
use crate::text::{append_bytes, format_ms, key_hex, hex_component, ms_text};
use crate::config::{ConfigError, DefineEntry, PackConfig, PackConfigV, spec_parse_config};
use crate::lister::{marker, scan_ids, extract_pack_ids};

verus! {

/// The text `sound-pack-` as bytes.
pub open spec fn lit_sound_pack_dash() -> Seq<u8> {
    seq![115u8, 111u8, 117u8, 110u8, 100u8, 45u8, 112u8, 97u8, 99u8, 107u8, 45u8]
}

fn lit_sound_pack_dash_bytes() -> (v: Vec<u8>)
    ensures
        v@ == lit_sound_pack_dash(),
{
    let mut v: Vec<u8> = Vec::new();
    v.push(115);
    v.push(111);
    v.push(117);
    v.push(110);
    v.push(100);
    v.push(45);
    v.push(112);
    v.push(97);
    v.push(99);
    v.push(107);
    v.push(45);
    assert(v@ =~= lit_sound_pack_dash());
    v
}

/// The text `/dist/config.json` as bytes.
pub open spec fn lit_dist_config() -> Seq<u8> {
    seq![47u8, 100u8, 105u8, 115u8, 116u8, 47u8, 99u8, 111u8, 110u8, 102u8, 105u8, 103u8, 46u8, 106u8, 115u8, 111u8, 110u8]
}

fn lit_dist_config_bytes() -> (v: Vec<u8>)
    ensures
        v@ == lit_dist_config(),
{
    let mut v: Vec<u8> = Vec::new();
    v.push(47);
    v.push(100);
    v.push(105);
    v.push(115);
    v.push(116);
    v.push(47);
    v.push(99);
    v.push(111);
    v.push(110);
    v.push(102);
    v.push(105);
    v.push(103);
    v.push(46);
    v.push(106);
    v.push(115);
    v.push(111);
    v.push(110);
    assert(v@ =~= lit_dist_config());
    v
}

/// The text `/dist/` as bytes.
pub open spec fn lit_dist_slash() -> Seq<u8> {
    seq![47u8, 100u8, 105u8, 115u8, 116u8, 47u8]
}

fn lit_dist_slash_bytes() -> (v: Vec<u8>)
    ensures
        v@ == lit_dist_slash(),
{
    let mut v: Vec<u8> = Vec::new();
    v.push(47);
    v.push(100);
    v.push(105);
    v.push(115);
    v.push(116);
    v.push(47);
    assert(v@ =~= lit_dist_slash());
    v
}

/// The text `pack-` as bytes.
pub open spec fn lit_pack_dash() -> Seq<u8> {
    seq![112u8, 97u8, 99u8, 107u8, 45u8]
}

fn lit_pack_dash_bytes() -> (v: Vec<u8>)
    ensures
        v@ == lit_pack_dash(),
{
    let mut v: Vec<u8> = Vec::new();
    v.push(112);
    v.push(97);
    v.push(99);
    v.push(107);
    v.push(45);
    assert(v@ =~= lit_pack_dash());
    v
}

/// The text `packs/` as bytes.
pub open spec fn lit_packs_slash() -> Seq<u8> {
    seq![112u8, 97u8, 99u8, 107u8, 115u8, 47u8]
}

fn lit_packs_slash_bytes() -> (v: Vec<u8>)
    ensures
        v@ == lit_packs_slash(),
{
    let mut v: Vec<u8> = Vec::new();
    v.push(112);
    v.push(97);
    v.push(99);
    v.push(107);
    v.push(115);
    v.push(47);
    assert(v@ =~= lit_packs_slash());
    v
}

/// The text `-stereo.wav` as bytes.
pub open spec fn lit_stereo_suffix() -> Seq<u8> {
    seq![45u8, 115u8, 116u8, 101u8, 114u8, 101u8, 111u8, 46u8, 119u8, 97u8, 118u8]
}

fn lit_stereo_suffix_bytes() -> (v: Vec<u8>)
    ensures
        v@ == lit_stereo_suffix(),
{
    let mut v: Vec<u8> = Vec::new();
    v.push(45);
    v.push(115);
    v.push(116);
    v.push(101);
    v.push(114);
    v.push(101);
    v.push(111);
    v.push(46);
    v.push(119);
    v.push(97);
    v.push(118);
    assert(v@ =~= lit_stereo_suffix());
    v
}

/// The text `-1.wav` as bytes.
pub open spec fn lit_mono_suffix() -> Seq<u8> {
    seq![45u8, 49u8, 46u8, 119u8, 97u8, 118u8]
}

fn lit_mono_suffix_bytes() -> (v: Vec<u8>)
    ensures
        v@ == lit_mono_suffix(),
{
    let mut v: Vec<u8> = Vec::new();
    v.push(45);
    v.push(49);
    v.push(46);
    v.push(119);
    v.push(97);
    v.push(118);
    assert(v@ =~= lit_mono_suffix());
    v
}

/// The text `/` as bytes.
pub open spec fn lit_slash() -> Seq<u8> {
    seq![47u8]
}

fn lit_slash_bytes() -> (v: Vec<u8>)
    ensures
        v@ == lit_slash(),
{
    let mut v: Vec<u8> = Vec::new();
    v.push(47);
    assert(v@ =~= lit_slash());
    v
}

/// The text `trim` as bytes.
pub open spec fn lit_word_trim() -> Seq<u8> {
    seq![116u8, 114u8, 105u8, 109u8]
}

fn lit_word_trim_bytes() -> (v: Vec<u8>)
    ensures
        v@ == lit_word_trim(),
{
    let mut v: Vec<u8> = Vec::new();
    v.push(116);
    v.push(114);
    v.push(105);
    v.push(109);
    assert(v@ =~= lit_word_trim());
    v
}

/// The text `-c` as bytes.
pub open spec fn lit_flag_channels() -> Seq<u8> {
    seq![45u8, 99u8]
}

fn lit_flag_channels_bytes() -> (v: Vec<u8>)
    ensures
        v@ == lit_flag_channels(),
{
    let mut v: Vec<u8> = Vec::new();
    v.push(45);
    v.push(99);
    assert(v@ =~= lit_flag_channels());
    v
}

/// The text `1` as bytes.
pub open spec fn lit_word_one() -> Seq<u8> {
    seq![49u8]
}

fn lit_word_one_bytes() -> (v: Vec<u8>)
    ensures
        v@ == lit_word_one(),
{
    let mut v: Vec<u8> = Vec::new();
    v.push(49);
    assert(v@ =~= lit_word_one());
    v
}

/// The two operating modes.  They share the same downstream logic and
/// differ only in URL shape, output directory, whether a metadata failure
/// is fatal, and whether the stereo intermediate is removed.
#[derive(Clone, Copy, PartialEq, Eq, Structural, Debug)]
pub enum Mode {
    SinglePack,
    Catalog,
}

/// The remote path segment for a pack: the bare identifier in catalog
/// mode, `sound-pack-<id>` in single-pack mode.
pub open spec fn pack_path(mode: Mode, id: Seq<u8>) -> Seq<u8> {
    match mode {
        Mode::Catalog => id,
        Mode::SinglePack => lit_sound_pack_dash() + id,
    }
}

/// URL of the catalog listing page: `<base>/sound-packs/`.
pub open spec fn listing_url_text(base: Seq<u8>) -> Seq<u8> {
    base + marker()
}

/// URL of a pack's metadata: `<base>/sound-packs/<path>/dist/config.json`.
pub open spec fn metadata_url_text(base: Seq<u8>, mode: Mode, id: Seq<u8>) -> Seq<u8> {
    base + marker() + pack_path(mode, id) + lit_dist_config()
}

/// URL of a pack's audio asset: `<base>/sound-packs/<path>/dist/<sound>`.
pub open spec fn asset_url_text(base: Seq<u8>, mode: Mode, id: Seq<u8>, sound: Seq<u8>) -> Seq<
    u8,
> {
    base + marker() + pack_path(mode, id) + lit_dist_slash() + sound
}

/// Output directory for a pack: `pack-<id>` or `packs/<id>`.
pub open spec fn out_dir_text(mode: Mode, id: Seq<u8>) -> Seq<u8> {
    match mode {
        Mode::SinglePack => lit_pack_dash() + id,
        Mode::Catalog => lit_packs_slash() + id,
    }
}

pub fn listing_url(base: &Vec<u8>) -> (r: Vec<u8>)
    ensures
        r@ == listing_url_text(base@),
{
    let mut v: Vec<u8> = Vec::new();
    append_bytes(&mut v, base);
    let m = crate::lister::marker_vec();
    append_bytes(&mut v, &m);
    v
}

pub fn pack_path_bytes(mode: Mode, id: &Vec<u8>) -> (r: Vec<u8>)
    ensures
        r@ == pack_path(mode, id@),
{
    match mode {
        Mode::Catalog => {
            let mut v: Vec<u8> = Vec::new();
            append_bytes(&mut v, id);
            assert(v@ =~= id@);
            v
        },
        Mode::SinglePack => {
            let mut v = lit_sound_pack_dash_bytes();
            append_bytes(&mut v, id);
            v
        },
    }
}

pub fn metadata_url(base: &Vec<u8>, mode: Mode, id: &Vec<u8>) -> (r: Vec<u8>)
    ensures
        r@ == metadata_url_text(base@, mode, id@),
{
    let mut v: Vec<u8> = Vec::new();
    append_bytes(&mut v, base);
    let m = crate::lister::marker_vec();
    append_bytes(&mut v, &m);
    let p = pack_path_bytes(mode, id);
    append_bytes(&mut v, &p);
    let c = lit_dist_config_bytes();
    append_bytes(&mut v, &c);
    v
}

pub fn asset_url(base: &Vec<u8>, mode: Mode, id: &Vec<u8>, sound: &Vec<u8>) -> (r: Vec<u8>)
    ensures
        r@ == asset_url_text(base@, mode, id@, sound@),
{
    let mut v: Vec<u8> = Vec::new();
    append_bytes(&mut v, base);
    let m = crate::lister::marker_vec();
    append_bytes(&mut v, &m);
    let p = pack_path_bytes(mode, id);
    append_bytes(&mut v, &p);
    let c = lit_dist_slash_bytes();
    append_bytes(&mut v, &c);
    append_bytes(&mut v, sound);
    v
}

pub fn out_dir(mode: Mode, id: &Vec<u8>) -> (r: Vec<u8>)
    ensures
        r@ == out_dir_text(mode, id@),
{
    match mode {
        Mode::SinglePack => {
            let mut v = lit_pack_dash_bytes();
            append_bytes(&mut v, id);
            v
        },
        Mode::Catalog => {
            let mut v = lit_packs_slash_bytes();
            append_bytes(&mut v, id);
            v
        },
    }
}

/// File name of the stereo intermediate for a key code.
pub open spec fn stereo_name_text(key: nat) -> Seq<u8> {
    hex_component(key) + lit_stereo_suffix()
}

/// File name of the final mono clip for a key code.
pub open spec fn mono_name_text(key: nat) -> Seq<u8> {
    hex_component(key) + lit_mono_suffix()
}

pub open spec fn in_dir_text(dir: Seq<u8>, name: Seq<u8>) -> Seq<u8> {
    dir + lit_slash() + name
}

/// One planned slice/convert operation, in mathematical form.
pub ghost struct SliceJobV {
    pub key: u64,
    pub stereo_path: Seq<u8>,
    pub mono_path: Seq<u8>,
    pub start_text: Seq<u8>,
    pub duration_text: Seq<u8>,
    pub remove_stereo: bool,
}

/// One planned slice/convert operation for a key code: where the stereo
/// slice and the mono clip go, the trim start and duration rendered as
/// three-decimal seconds, and whether the stereo intermediate is removed
/// afterwards (catalog mode only).
#[derive(Debug)]
pub struct SliceJob {
    pub key: u64,
    pub stereo_path: Vec<u8>,
    pub mono_path: Vec<u8>,
    pub start_text: Vec<u8>,
    pub duration_text: Vec<u8>,
    pub remove_stereo: bool,
}

impl View for SliceJob {
    type V = SliceJobV;

    open spec fn view(&self) -> SliceJobV {
        SliceJobV {
            key: self.key,
            stereo_path: self.stereo_path@,
            mono_path: self.mono_path@,
            start_text: self.start_text@,
            duration_text: self.duration_text@,
            remove_stereo: self.remove_stereo,
        }
    }
}

/// The job a `defines` entry gives rise to, under a given mode and output
/// directory.
pub open spec fn slice_job_of(mode: Mode, dir: Seq<u8>, e: DefineEntry) -> SliceJobV {
    SliceJobV {
        key: e.0,
        stereo_path: in_dir_text(dir, stereo_name_text(e.0 as nat)),
        mono_path: in_dir_text(dir, mono_name_text(e.0 as nat)),
        start_text: ms_text(e.1.0 as nat),
        duration_text: ms_text(e.1.1 as nat),
        remove_stereo: mode is Catalog,
    }
}

fn make_slice_job(mode: Mode, dir: &Vec<u8>, e: DefineEntry) -> (r: SliceJob)
    ensures
        r@ == slice_job_of(mode, dir@, e),
{
    let hex = key_hex(e.0);
    let mut stereo: Vec<u8> = Vec::new();
    append_bytes(&mut stereo, dir);
    let sl = lit_slash_bytes();
    append_bytes(&mut stereo, &sl);
    append_bytes(&mut stereo, &hex);
    let st_suffix = lit_stereo_suffix_bytes();
    append_bytes(&mut stereo, &st_suffix);
    let mut mono: Vec<u8> = Vec::new();
    append_bytes(&mut mono, dir);
    append_bytes(&mut mono, &sl);
    append_bytes(&mut mono, &hex);
    let mn_suffix = lit_mono_suffix_bytes();
    append_bytes(&mut mono, &mn_suffix);
    let remove = match mode {
        Mode::Catalog => true,
        Mode::SinglePack => false,
    };
    let r = SliceJob {
        key: e.0,
        stereo_path: stereo,
        mono_path: mono,
        start_text: format_ms(e.1.0),
        duration_text: format_ms(e.1.1),
        remove_stereo: remove,
    };
    assert(r.stereo_path@ =~= in_dir_text(dir@, stereo_name_text(e.0 as nat)));
    assert(r.mono_path@ =~= in_dir_text(dir@, mono_name_text(e.0 as nat)));
    r
}

/// The slice/convert plan for a whole pack: one job per `defines` entry,
/// in the order the entries appeared.
pub fn slice_jobs(mode: Mode, dir: &Vec<u8>, defines: &Vec<DefineEntry>) -> (r: Vec<SliceJob>)
    ensures
        r@.len() == defines@.len(),
        forall|m: int| 0 <= m < r@.len() ==> (#[trigger] r@[m])@ == slice_job_of(
            mode,
            dir@,
            defines@[m],
        ),
{
    let mut r: Vec<SliceJob> = Vec::new();
    let mut m: usize = 0;
    while m < defines.len()
        invariant
            m <= defines@.len(),
            r@.len() == m,
            forall|q: int| 0 <= q < m ==> (#[trigger] r@[q])@ == slice_job_of(
                mode,
                dir@,
                defines@[q],
            ),
        decreases defines@.len() - m,
    {
        let job = make_slice_job(mode, dir, defines[m]);
        r.push(job);
        m = m + 1;
    }
    r
}

impl SliceJob {
    /// Argument list for the slicing invocation, after the tool's own
    /// name: `<asset> <stereo> trim <start> <duration>`.
    pub fn trim_args(&self, asset: &Vec<u8>) -> (r: Vec<Vec<u8>>)
        ensures
            r.deep_view() =~= seq![
                asset@,
                self.stereo_path@,
                lit_word_trim(),
                self.start_text@,
                self.duration_text@,
            ],
    {
        let mut r: Vec<Vec<u8>> = Vec::new();
        let mut a: Vec<u8> = Vec::new();
        append_bytes(&mut a, asset);
        r.push(a);
        let mut sp: Vec<u8> = Vec::new();
        append_bytes(&mut sp, &self.stereo_path);
        r.push(sp);
        r.push(lit_word_trim_bytes());
        let mut st: Vec<u8> = Vec::new();
        append_bytes(&mut st, &self.start_text);
        r.push(st);
        let mut du: Vec<u8> = Vec::new();
        append_bytes(&mut du, &self.duration_text);
        r.push(du);
        assert(r.deep_view() =~~= seq![
            asset@,
            self.stereo_path@,
            lit_word_trim(),
            self.start_text@,
            self.duration_text@,
        ]);
        r
    }

    /// Argument list for the downmix invocation, after the tool's own
    /// name: `<stereo> -c 1 <mono>`.
    pub fn mono_args(&self) -> (r: Vec<Vec<u8>>)
        ensures
            r.deep_view() =~= seq![
                self.stereo_path@,
                lit_flag_channels(),
                lit_word_one(),
                self.mono_path@,
            ],
    {
        let mut r: Vec<Vec<u8>> = Vec::new();
        let mut sp: Vec<u8> = Vec::new();
        append_bytes(&mut sp, &self.stereo_path);
        r.push(sp);
        r.push(lit_flag_channels_bytes());
        r.push(lit_word_one_bytes());
        let mut mp: Vec<u8> = Vec::new();
        append_bytes(&mut mp, &self.mono_path);
        r.push(mp);
        assert(r.deep_view() =~~= seq![
            self.stereo_path@,
            lit_flag_channels(),
            lit_word_one(),
            self.mono_path@,
        ]);
        r
    }
}

/// A condition that aborts the whole run.
#[derive(Clone, Copy, PartialEq, Eq, Structural, Debug)]
pub enum RunError {
    /// The listing page could not be fetched with status 200.
    ListingFetch(u16),
    /// Single-pack mode: the metadata could not be fetched with status 200.
    MetaFetch(u16),
    /// Single-pack mode: the metadata body failed schema validation.
    MetaInvalid(ConfigError),
    /// The audio asset could not be fetched with status 200 (either mode).
    AssetFetch(u16),
}

/// A condition that skips one pack and lets the run continue
/// (catalog mode only).
#[derive(Clone, Copy, PartialEq, Eq, Structural, Debug)]
pub enum SkipReason {
    MetaFetch(u16),
    MetaInvalid(ConfigError),
}

/// What a metadata response means for the current pack.
pub enum MetaOutcome {
    Accept(PackConfig),
    Skip(SkipReason),
    Abort(RunError),
}

pub ghost enum MetaOutcomeV {
    AcceptV(PackConfigV),
    SkipV(SkipReason),
    AbortV(RunError),
}

impl View for MetaOutcome {
    type V = MetaOutcomeV;

    open spec fn view(&self) -> MetaOutcomeV {
        match self {
            MetaOutcome::Accept(c) => MetaOutcomeV::AcceptV(c@),
            MetaOutcome::Skip(s) => MetaOutcomeV::SkipV(*s),
            MetaOutcome::Abort(e) => MetaOutcomeV::AbortV(*e),
        }
    }
}

/// The decision a metadata response leads to: a non-200 status or an
/// invalid body skips the pack in catalog mode and aborts the run in
/// single-pack mode; a valid body is accepted.
pub open spec fn meta_decision(mode: Mode, status: u16, body: Seq<u8>) -> MetaOutcomeV {
    if status != 200 {
        match mode {
            Mode::Catalog => MetaOutcomeV::SkipV(SkipReason::MetaFetch(status)),
            Mode::SinglePack => MetaOutcomeV::AbortV(RunError::MetaFetch(status)),
        }
    } else {
        match spec_parse_config(body) {
            Ok(c) => MetaOutcomeV::AcceptV(c),
            Err(e) => match mode {
                Mode::Catalog => MetaOutcomeV::SkipV(SkipReason::MetaInvalid(e)),
                Mode::SinglePack => MetaOutcomeV::AbortV(RunError::MetaInvalid(e)),
            },
        }
    }
}

pub fn on_metadata_response(mode: Mode, status: u16, body: &Vec<u8>) -> (r: MetaOutcome)
    ensures
        r@ == meta_decision(mode, status, body@),
{
    if status != 200 {
        match mode {
            Mode::Catalog => MetaOutcome::Skip(SkipReason::MetaFetch(status)),
            Mode::SinglePack => MetaOutcome::Abort(RunError::MetaFetch(status)),
        }
    } else {
        match PackConfig::parse(body) {
            Ok(c) => MetaOutcome::Accept(c),
            Err(e) => match mode {
                Mode::Catalog => MetaOutcome::Skip(SkipReason::MetaInvalid(e)),
                Mode::SinglePack => MetaOutcome::Abort(RunError::MetaInvalid(e)),
            },
        }
    }
}

/// The decision an asset response leads to.  It takes no mode: a non-200
/// status on the asset fetch aborts the run in both modes.
pub open spec fn asset_decision(status: u16) -> Result<(), RunError> {
    if status == 200 {
        Ok(())
    } else {
        Err(RunError::AssetFetch(status))
    }
}

pub fn on_asset_response(status: u16) -> (r: Result<(), RunError>)
    ensures
        r == asset_decision(status),
{
    if status == 200 {
        Ok(())
    } else {
        Err(RunError::AssetFetch(status))
    }
}

/// The decision the listing response leads to: only a 200 status yields
/// identifiers; anything else is fatal, in any mode, since there is no
/// pack to skip to.
pub open spec fn listing_decision(status: u16, body: Seq<u8>) -> Result<Seq<Seq<u8>>, RunError> {
    if status == 200 {
        Ok(scan_ids(body, 0))
    } else {
        Err(RunError::ListingFetch(status))
    }
}

pub fn on_listing_response(status: u16, body: &Vec<u8>) -> (r: Result<Vec<Vec<u8>>, RunError>)
    ensures
        match r {
            Ok(ids) => listing_decision(status, body@) == Ok::<Seq<Seq<u8>>, RunError>(
                ids.deep_view(),
            ),
            Err(e) => listing_decision(status, body@) == Err::<Seq<Seq<u8>>, RunError>(e),
        },
{
    if status == 200 {
        Ok(extract_pack_ids(body))
    } else {
        Err(RunError::ListingFetch(status))
    }
}

/// A failed asset fetch is fatal whatever else holds: for every status
/// other than 200 the decision is to abort with that status, and the
/// decision function takes no mode, so this holds in both operating modes.
pub proof fn lemma_asset_failure_always_fatal(status: u16)
    ensures
        status != 200 ==> asset_decision(status) == Err::<(), RunError>(
            RunError::AssetFetch(status),
        ),
        status == 200 ==> asset_decision(status) == Ok::<(), RunError>(()),
{
}

/// In catalog mode a metadata failure is never fatal: whatever the status
/// and body, the decision is to accept the pack or skip it, never to abort
/// the run, so packs after a bad one are still processed.
pub proof fn lemma_catalog_metadata_failure_skips(status: u16, body: Seq<u8>)
    ensures
        !(meta_decision(Mode::Catalog, status, body) is AbortV),
        status != 200 ==> meta_decision(Mode::Catalog, status, body) == MetaOutcomeV::SkipV(
            SkipReason::MetaFetch(status),
        ),
        spec_parse_config(body) matches Err(e) ==> meta_decision(Mode::Catalog, 200, body)
            == MetaOutcomeV::SkipV(SkipReason::MetaInvalid(e)),
{
}

} // verus!
