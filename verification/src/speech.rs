use vstd::prelude::*;
use vstd::string::StringExecFns;

use crate::text::{chars_of, contains_seq, seq_contains};

verus! {

/// A voice of the platform speech engine, as handed to callers.
#[derive(Debug, Clone)]
pub struct VoiceInfo {
    pub id: String,
    pub name: String,
}

/// A voice of the platform speech engine together with its language tag,
/// as the engine reports it.
#[derive(Debug, Clone)]
pub struct VoiceRecord {
    pub id: String,
    pub name: String,
    pub language: String,
}

/// The lowercase form of a character sequence.
pub uninterp spec fn lowercased(s: Seq<char>) -> Seq<char>;

/// Relies on `str::to_lowercase`: the lowercase form depends on the
/// characters alone; no locale is consulted.
#[verifier::external_body]
fn to_lowercase(s: &str) -> (r: String)
    ensures
        r@ == lowercased(s@),
{
    s.to_lowercase()
}

/// Whether a language tag, lowercased, names a Chinese variety.
pub open spec fn is_chinese_language(lang: Seq<char>) -> bool {
    ||| contains_seq(lowercased(lang), "zh"@)
    ||| contains_seq(lowercased(lang), "chn"@)
    ||| contains_seq(lowercased(lang), "chi"@)
}

/// The id/name views of a list of voice records.
pub open spec fn records_view(s: Seq<VoiceRecord>) -> Seq<(Seq<char>, Seq<char>, Seq<char>)> {
    s.map_values(|v: VoiceRecord| (v.id@, v.name@, v.language@))
}

/// The id/name views of a list of voice infos.
pub open spec fn infos_view(s: Seq<VoiceInfo>) -> Seq<(Seq<char>, Seq<char>)> {
    s.map_values(|v: VoiceInfo| (v.id@, v.name@))
}

/// The voices whose language tag names a Chinese variety, in order, reduced
/// to id and name.
pub open spec fn chinese_voices(records: Seq<(Seq<char>, Seq<char>, Seq<char>)>) -> Seq<
    (Seq<char>, Seq<char>),
>
    decreases records.len(),
{
    if records.len() == 0 {
        Seq::empty()
    } else {
        let head = if is_chinese_language(records[0].2) {
            seq![(records[0].0, records[0].1)]
        } else {
            Seq::<(Seq<char>, Seq<char>)>::empty()
        };
        head + chinese_voices(records.skip(1))
    }
}

/// Whether one language tag names a Chinese variety.
fn is_chinese_record(rec: &VoiceRecord) -> (r: bool)
    ensures
        r == is_chinese_language(rec.language@),
{
    let lower = to_lowercase(rec.language.as_str());
    let lc = chars_of(lower.as_str());
    let zh = chars_of("zh");
    let chn = chars_of("chn");
    let chi = chars_of("chi");
    if seq_contains(&lc, &zh) {
        return true;
    }
    if seq_contains(&lc, &chn) {
        return true;
    }
    seq_contains(&lc, &chi)
}

/// The voices to offer a caller: those whose language tag names a Chinese
/// variety, in the engine's order, with their id and name.
pub fn r_get_voices(records: &Vec<VoiceRecord>) -> (r: Vec<VoiceInfo>)
    ensures
        infos_view(r@) == chinese_voices(records_view(records@)),
{
    let ghost rv = records_view(records@);
    let n = records.len();
    let mut out: Vec<VoiceInfo> = Vec::new();
    let mut i: usize = 0;
    proof {
        assert(rv.skip(0) =~= rv);
        assert(infos_view(out@) =~= Seq::<(Seq<char>, Seq<char>)>::empty());
    }
    while i < n
        invariant
            i <= n,
            n == records@.len(),
            rv == records_view(records@),
            infos_view(out@) + chinese_voices(rv.skip(i as int)) == chinese_voices(rv),
        decreases n - i,
    {
        let ghost pre = infos_view(out@);
        proof {
            assert(rv.skip(i as int)[0] == rv[i as int]);
            assert(rv.skip(i as int).skip(1) =~= rv.skip(i as int + 1));
        }
        if is_chinese_record(&records[i]) {
            let info = VoiceInfo { id: records[i].id.clone(), name: records[i].name.clone() };
            out.push(info);
            proof {
                assert(infos_view(out@) =~= pre + seq![(rv[i as int].0, rv[i as int].1)]);
                assert((pre + seq![(rv[i as int].0, rv[i as int].1)]) + chinese_voices(
                    rv.skip(i as int + 1),
                ) =~= pre + (seq![(rv[i as int].0, rv[i as int].1)] + chinese_voices(
                    rv.skip(i as int + 1),
                )));
            }
        } else {
            proof {
                assert(Seq::<(Seq<char>, Seq<char>)>::empty() + chinese_voices(
                    rv.skip(i as int + 1),
                ) =~= chinese_voices(rv.skip(i as int + 1)));
            }
        }
        i += 1;
    }
    proof {
        assert(rv.skip(n as int) =~= Seq::<(Seq<char>, Seq<char>, Seq<char>)>::empty());
        assert(infos_view(out@) + chinese_voices(rv.skip(n as int)) =~= infos_view(out@));
    }
    out
}

/// The first voice whose id is `id`, if any.
pub fn find_voice_by_id(records: &Vec<VoiceRecord>, id: &String) -> (r: Option<usize>)
    ensures
        r is Some ==> {
            let i = r.unwrap() as int;
            &&& 0 <= i < records@.len()
            &&& records@[i].id@ == id@
            &&& forall|j: int| 0 <= j < i ==> records@[j].id@ != id@
        },
        r is None ==> forall|j: int| 0 <= j < records@.len() ==> records@[j].id@ != id@,
{
    let n = records.len();
    let mut i: usize = 0;
    while i < n
        invariant
            i <= n,
            n == records@.len(),
            forall|j: int| 0 <= j < i ==> records@[j].id@ != id@,
        decreases n - i,
    {
        if records[i].id.eq(id) {
            return Some(i);
        }
        i += 1;
    }
    None
}

/// Whether a voice name marks one of the preferred Chinese voices.
pub open spec fn preferred_voice_name(name: Seq<char>) -> bool {
    ||| contains_seq(name, "zh-CN"@)
    ||| contains_seq(name, "Ting-Ting"@)
    ||| contains_seq(name, "Meijia"@)
}

/// The voice to apply right after the engine comes up: the first voice whose
/// id is the selected one when a selection was made (none otherwise, even if
/// preferred voices exist), else the first voice with a preferred Chinese
/// name.
pub fn pick_voice(records: &Vec<VoiceRecord>, selected: &Option<String>) -> (r: Option<usize>)
    ensures
        selected is Some ==> {
            &&& r is Some ==> {
                let i = r.unwrap() as int;
                &&& 0 <= i < records@.len()
                &&& records@[i].id@ == selected.unwrap()@
                &&& forall|j: int| 0 <= j < i ==> records@[j].id@ != selected.unwrap()@
            }
            &&& r is None ==> forall|j: int|
                0 <= j < records@.len() ==> records@[j].id@ != selected.unwrap()@
        },
        selected is None ==> {
            &&& r is Some ==> {
                let i = r.unwrap() as int;
                &&& 0 <= i < records@.len()
                &&& preferred_voice_name(records@[i].name@)
                &&& forall|j: int| 0 <= j < i ==> !preferred_voice_name(records@[j].name@)
            }
            &&& r is None ==> forall|j: int|
                0 <= j < records@.len() ==> !preferred_voice_name(records@[j].name@)
        },
{
    match selected {
        Some(vid) => {
            proof {
                assert(vid@ == selected.unwrap()@);
            }
            find_voice_by_id(records, vid)
        },
        None => {
            let zh = chars_of("zh-CN");
            let ting = chars_of("Ting-Ting");
            let meijia = chars_of("Meijia");
            let n = records.len();
            let mut i: usize = 0;
            while i < n
                invariant
                    selected is None,
                    i <= n,
                    n == records@.len(),
                    zh@ == "zh-CN"@,
                    ting@ == "Ting-Ting"@,
                    meijia@ == "Meijia"@,
                    forall|j: int| 0 <= j < i ==> !preferred_voice_name(records@[j].name@),
                decreases n - i,
            {
                let name = chars_of(records[i].name.as_str());
                if seq_contains(&name, &zh) || seq_contains(&name, &ting) || seq_contains(
                    &name,
                    &meijia,
                ) {
                    return Some(i);
                }
                i += 1;
            }
            None
        },
    }
}

/// How many times the engine constructor is attempted before giving up.
pub const MAX_INIT_ATTEMPTS: u32 = 2;

/// The pause before a retried engine construction, in milliseconds.
pub const INIT_RETRY_DELAY_MS: u64 = 600;

/// The retry policy of lazy engine initialization: after a failed attempt,
/// how long to pause before the next one, or `None` when the attempts are
/// used up and the failure is final.
pub fn retry_delay_ms(failed_attempts: u32) -> (r: Option<u64>)
    ensures
        r == (if failed_attempts < MAX_INIT_ATTEMPTS {
            Some(INIT_RETRY_DELAY_MS)
        } else {
            None::<u64>
        }),
{
    if failed_attempts < MAX_INIT_ATTEMPTS {
        Some(INIT_RETRY_DELAY_MS)
    } else {
        None
    }
}

/// The engine-facing settings a caller owns and hands into the speech
/// plumbing: where shared assets live, which voice was selected, and whether
/// initialization was requested. An explicit value, not ambient state.
pub struct EngineSettings {
    pub assets_path: Option<String>,
    pub selected_voice_id: Option<String>,
    pub init_requested: bool,
}

impl EngineSettings {
    /// Fresh settings: nothing chosen, nothing requested yet.
    pub fn new() -> (r: EngineSettings)
        ensures
            r.assets_path is None,
            r.selected_voice_id is None,
            !r.init_requested,
    {
        EngineSettings { assets_path: None, selected_voice_id: None, init_requested: false }
    }
}

/// Requests lazy initialization of the speech engine with the settings as
/// they are.
pub fn custom_init_tts(settings: &mut EngineSettings)
    ensures
        final(settings).init_requested,
        final(settings).assets_path == old(settings).assets_path,
        final(settings).selected_voice_id == old(settings).selected_voice_id,
{
    settings.init_requested = true;
}

/// Records where the shared assets (the lexicon file among them) live, and
/// requests lazy initialization of the speech engine.
pub fn custom_init_tts_with_path(settings: &mut EngineSettings, shared_path: String)
    ensures
        final(settings).init_requested,
        final(settings).assets_path == Some(shared_path),
        final(settings).selected_voice_id == old(settings).selected_voice_id,
{
    settings.assets_path = Some(shared_path);
    settings.init_requested = true;
}

/// Records the selected voice id and names the voice to switch to: the first
/// one carrying that id, if the engine offers it.
pub fn r_set_voice(settings: &mut EngineSettings, records: &Vec<VoiceRecord>, id: String) -> (r:
    Option<usize>)
    ensures
        final(settings).selected_voice_id is Some,
        final(settings).selected_voice_id.unwrap()@ == id@,
        final(settings).assets_path == old(settings).assets_path,
        final(settings).init_requested == old(settings).init_requested,
        r is Some ==> {
            let i = r.unwrap() as int;
            &&& 0 <= i < records@.len()
            &&& records@[i].id@ == id@
            &&& forall|j: int| 0 <= j < i ==> records@[j].id@ != id@
        },
        r is None ==> forall|j: int| 0 <= j < records@.len() ==> records@[j].id@ != id@,
{
    let stored = id.clone();
    settings.selected_voice_id = Some(stored);
    find_voice_by_id(records, &id)
}

/// The confirmation returned after a speak request was sent for `text`.
pub fn speak_chinese_test(text: String) -> (r: String)
    ensures
        r@ == "已发送朗读请求: "@ + text@,
{
    let mut out = "已发送朗读请求: ".to_owned();
    out.append(text.as_str());
    out
}

} // verus!
