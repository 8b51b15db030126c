//! Platform-neutral model of the audio world (sinks + app streams) and the
//! resolution of a fader's target onto concrete nodes.
//!
//! - A **category** fader moves every member app together.
//! - **Unassigned** ("Everything Else") drives every stream that is *not* in
//!   any category and *not* directly targeted by another fader, so it never
//!   fights a dedicated app fader.

use vstd::prelude::*;

use crate::config::{CategoryDef, Config, FaderConfig, Target};
use crate::text::{ascii_fold, chars_of, contains_str, eq_ignore_ascii_case, fold_char, is_substring};

verus! {

/// An output device (PipeWire sink) as seen by the mixer backend.
#[derive(Clone, Debug, PartialEq, Eq)]
pub struct SinkNode {
    pub index: u32,
    /// Node name (e.g. `alsa_output.usb-...`).
    pub name: String,
    /// Human-readable description (what pavucontrol shows).
    pub description: String,
    /// Channel count, needed to build a volume write.
    pub channels: u8,
    /// Current volume in percent (display only).
    pub volume_pct: u32,
}

/// One application playback stream (PipeWire stream node / pulse sink-input).
#[derive(Clone, Debug, PartialEq, Eq)]
pub struct StreamNode {
    pub index: u32,
    /// `application.name` (falling back to the stream's media name).
    pub app_name: String,
    /// `application.process.binary` — the app identity faders match on.
    pub binary: String,
    pub channels: u8,
    /// Current volume in percent (display only).
    pub volume_pct: u32,
}

/// A snapshot of everything a fader could drive.
#[derive(Clone, Debug, PartialEq, Eq)]
pub struct World {
    pub sinks: Vec<SinkNode>,
    pub streams: Vec<StreamNode>,
}

impl Default for World {
    fn default() -> (r: Self)
        ensures
            r.sinks@.len() == 0,
            r.streams@.len() == 0,
    {
        World { sinks: Vec::new(), streams: Vec::new() }
    }
}

/// The concrete nodes a fader currently drives.
#[derive(Debug)]
pub struct Resolved<'w> {
    pub sinks: Vec<&'w SinkNode>,
    pub streams: Vec<&'w StreamNode>,
}

impl<'w> Default for Resolved<'w> {
    fn default() -> (r: Self)
        ensures
            r.sinks@.len() == 0,
            r.streams@.len() == 0,
    {
        Resolved { sinks: Vec::new(), streams: Vec::new() }
    }
}

impl<'w> Resolved<'w> {
    /// The resolved sinks, by value.
    pub open spec fn sink_view(self) -> Seq<SinkNode> {
        self.sinks@.map_values(|s: &SinkNode| *s)
    }

    /// The resolved streams, by value.
    pub open spec fn stream_view(self) -> Seq<StreamNode> {
        self.streams@.map_values(|s: &StreamNode| *s)
    }
}

/// What `str::to_lowercase` returns for a string: its full Unicode
/// lower-case mapping.
pub uninterp spec fn lowercase(s: Seq<char>) -> Seq<char>;

/// Calls `str::to_lowercase`; the result is named by `lowercase`.
#[verifier::external_body]
fn to_lowercase(s: &str) -> (r: String)
    ensures
        r@ == lowercase(s@),
{
    s.to_lowercase()
}

/// Case-insensitive substring match; an empty needle never matches.
pub open spec fn contains_ci_spec(haystack: Seq<char>, needle: Seq<char>) -> bool {
    needle.len() > 0 && is_substring(lowercase(haystack), lowercase(needle))
}

/// Whether `needle` (non-empty) occurs in `haystack`, both lower-cased.
pub fn contains_ci(haystack: &str, needle: &str) -> (r: bool)
    ensures
        r == contains_ci_spec(haystack@, needle@),
{
    if needle.is_empty() {
        return false;
    }
    let h = to_lowercase(haystack);
    let n = to_lowercase(needle);
    contains_str(h.as_str(), n.as_str())
}

/// ASCII case-insensitive equality (`str::eq_ignore_ascii_case`).
pub fn eq_ci(a: &str, b: &str) -> (r: bool)
    ensures
        r == eq_ignore_ascii_case(a@, b@),
{
    let x = chars_of(a);
    let y = chars_of(b);
    if x.len() != y.len() {
        return false;
    }
    let mut i: usize = 0;
    while i < x.len()
        invariant
            x@ == a@,
            y@ == b@,
            x.len() == y.len(),
            i <= x.len(),
            forall|k: int| 0 <= k < i ==> #[trigger] ascii_fold(x@[k]) == ascii_fold(y@[k]),
        decreases x.len() - i,
    {
        if fold_char(x[i]) != fold_char(y[i]) {
            return false;
        }
        i += 1;
    }
    true
}

/// The sink is driven by fader `fi` of `cfg`.
pub open spec fn sink_selected(cfg: Config, fi: int, s: SinkNode) -> bool {
    &&& 0 <= fi < cfg.fader@.len()
    &&& match cfg.fader@[fi].target {
        Target::Sink { name_match } => contains_ci_spec(s.description@, name_match@)
            || contains_ci_spec(s.name@, name_match@),
        _ => false,
    }
}

/// `j` is the first category whose name matches `name`.
pub open spec fn first_category(cfg: Config, name: Seq<char>, j: int) -> bool {
    &&& 0 <= j < cfg.category@.len()
    &&& eq_ignore_ascii_case(cfg.category@[j].name@, name)
    &&& forall|k: int| 0 <= k < j ==> !eq_ignore_ascii_case(#[trigger] cfg.category@[k].name@, name)
}

/// One of the category's members matches `binary`.
pub open spec fn is_member(cat: CategoryDef, binary: Seq<char>) -> bool {
    exists|m: int| 0 <= m < cat.members@.len() && eq_ignore_ascii_case(binary, #[trigger] cat.members@[m]@)
}

/// `binary` is a member of the first category named `name`.
pub open spec fn in_named_category(cfg: Config, name: Seq<char>, binary: Seq<char>) -> bool {
    exists|j: int| first_category(cfg, name, j) && is_member(#[trigger] cfg.category@[j], binary)
}

/// `binary` is a member of some category.
pub open spec fn in_any_category(cfg: Config, binary: Seq<char>) -> bool {
    exists|j: int| 0 <= j < cfg.category@.len() && is_member(#[trigger] cfg.category@[j], binary)
}

/// The fader targets the app `binary` directly.
pub open spec fn targets_app(f: FaderConfig, binary: Seq<char>) -> bool {
    match f.target {
        Target::App { binary: b } => eq_ignore_ascii_case(binary, b@),
        _ => false,
    }
}

/// Some fader of `cfg` targets the app `binary` directly.
pub open spec fn directly_targeted(cfg: Config, binary: Seq<char>) -> bool {
    exists|f: int| 0 <= f < cfg.fader@.len() && targets_app(#[trigger] cfg.fader@[f], binary)
}

/// The stream is driven by fader `fi` of `cfg`.
pub open spec fn stream_selected(cfg: Config, fi: int, s: StreamNode) -> bool {
    &&& 0 <= fi < cfg.fader@.len()
    &&& match cfg.fader@[fi].target {
        Target::Sink { .. } => false,
        Target::App { binary } => eq_ignore_ascii_case(s.binary@, binary@),
        Target::Category { name } => in_named_category(cfg, name@, s.binary@),
        Target::Unassigned => !in_any_category(cfg, s.binary@) && !directly_targeted(
            cfg,
            s.binary@,
        ),
    }
}

/// An app fader drives exactly the streams whose binary equals its binary
/// up to ASCII case: same length, and the same characters once ASCII
/// letters are folded — never a mere substring match.
pub proof fn lemma_app_fader_matches_exactly(cfg: Config, fi: int, s: StreamNode)
    requires
        0 <= fi < cfg.fader@.len(),
        cfg.fader@[fi].target is App,
    ensures
        stream_selected(cfg, fi, s) <==> (s.binary@.len() == cfg.fader@[fi].target->binary@.len()
            && forall|i: int|
            0 <= i < s.binary@.len() ==> #[trigger] ascii_fold(s.binary@[i]) == ascii_fold(
                cfg.fader@[fi].target->binary@[i],
            )),
        stream_selected(cfg, fi, s) ==> s.binary@.len() == cfg.fader@[fi].target->binary@.len(),
{
}

/// The Everything Else fader drives exactly the streams whose binary is
/// matched (up to ASCII case) by no category member and by no app fader's
/// binary.
pub proof fn lemma_unassigned_drives_the_rest(cfg: Config, u: int, s: StreamNode)
    requires
        0 <= u < cfg.fader@.len(),
        cfg.fader@[u].target is Unassigned,
    ensures
        stream_selected(cfg, u, s) <==> (forall|j: int, m: int|
            0 <= j < cfg.category@.len() && 0 <= m < cfg.category@[j].members@.len()
                ==> !eq_ignore_ascii_case(s.binary@, #[trigger] cfg.category@[j].members@[m]@))
            && (forall|f: int|
            0 <= f < cfg.fader@.len() && (#[trigger] cfg.fader@[f]).target is App
                ==> !eq_ignore_ascii_case(s.binary@, cfg.fader@[f].target->binary@)),
{
    if !stream_selected(cfg, u, s) {
        if in_any_category(cfg, s.binary@) {
            let j = choose|j: int| 0 <= j < cfg.category@.len() && is_member(#[trigger] cfg.category@[j], s.binary@);
            let m = choose|m: int|
                0 <= m < cfg.category@[j].members@.len() && eq_ignore_ascii_case(
                    s.binary@,
                    #[trigger] cfg.category@[j].members@[m]@,
                );
        } else {
            let f = choose|f: int| 0 <= f < cfg.fader@.len() && targets_app(#[trigger] cfg.fader@[f], s.binary@);
            assert(cfg.fader@[f].target is App);
        }
    } else {
        assert forall|j: int, m: int|
            0 <= j < cfg.category@.len() && 0 <= m < cfg.category@[j].members@.len() implies !eq_ignore_ascii_case(
            s.binary@,
            #[trigger] cfg.category@[j].members@[m]@,
        ) by {
            if eq_ignore_ascii_case(s.binary@, cfg.category@[j].members@[m]@) {
                assert(is_member(cfg.category@[j], s.binary@));
            }
        }
        assert forall|f: int|
            0 <= f < cfg.fader@.len() && (#[trigger] cfg.fader@[f]).target is App implies !eq_ignore_ascii_case(
            s.binary@,
            cfg.fader@[f].target->binary@,
        ) by {
            if eq_ignore_ascii_case(s.binary@, cfg.fader@[f].target->binary@) {
                assert(targets_app(cfg.fader@[f], s.binary@));
            }
        }
    }
}

/// A stream that the Unassigned ("Everything Else") fader drives is driven
/// by no fader with another target: Everything Else never fights a
/// dedicated app or category fader.
pub proof fn lemma_unassigned_is_exclusive(cfg: Config, u: int, f: int, s: StreamNode)
    requires
        stream_selected(cfg, u, s),
        cfg.fader@[u].target is Unassigned,
        0 <= f < cfg.fader@.len(),
        !(cfg.fader@[f].target is Unassigned),
    ensures
        !stream_selected(cfg, f, s),
{
    match cfg.fader@[f].target {
        Target::App { binary } => {
            if eq_ignore_ascii_case(s.binary@, binary@) {
                assert(targets_app(cfg.fader@[f], s.binary@));
            }
        },
        Target::Category { name } => {
            if in_named_category(cfg, name@, s.binary@) {
                let j = choose|j: int|
                    first_category(cfg, name@, j) && is_member(#[trigger] cfg.category@[j], s.binary@);
                assert(is_member(cfg.category@[j], s.binary@));
            }
        },
        _ => {},
    }
}

proof fn lemma_filter_take_step<A>(s: Seq<A>, p: spec_fn(A) -> bool, i: int)
    requires
        0 <= i < s.len(),
    ensures
        s.take(i + 1).filter(p) == (if p(s[i]) {
            s.take(i).filter(p).push(s[i])
        } else {
            s.take(i).filter(p)
        }),
{
    reveal_with_fuel(Seq::filter, 1);
    assert(s.take(i + 1).drop_last() =~= s.take(i));
}

/// The index of the first category named `name`, if any.
fn find_category(cfg: &Config, name: &str) -> (r: Option<usize>)
    ensures
        match r {
            Some(j) => first_category(*cfg, name@, j as int),
            None => forall|k: int|
                0 <= k < cfg.category@.len() ==> !eq_ignore_ascii_case(
                    #[trigger] cfg.category@[k].name@,
                    name@,
                ),
        },
{
    let mut j: usize = 0;
    while j < cfg.category.len()
        invariant
            j <= cfg.category@.len(),
            forall|k: int|
                0 <= k < j ==> !eq_ignore_ascii_case(#[trigger] cfg.category@[k].name@, name@),
        decreases cfg.category.len() - j,
    {
        if eq_ci(cfg.category[j].name.as_str(), name) {
            return Some(j);
        }
        j += 1;
    }
    None
}

/// Whether `binary` matches a member of `cat`.
fn member_of(cat: &CategoryDef, binary: &str) -> (r: bool)
    ensures
        r == is_member(*cat, binary@),
{
    let mut m: usize = 0;
    while m < cat.members.len()
        invariant
            m <= cat.members@.len(),
            forall|k: int|
                0 <= k < m ==> !eq_ignore_ascii_case(binary@, #[trigger] cat.members@[k]@),
        decreases cat.members.len() - m,
    {
        if eq_ci(binary, cat.members[m].as_str()) {
            return true;
        }
        m += 1;
    }
    false
}

/// Whether `binary` is in any category of `cfg`.
fn member_of_any(cfg: &Config, binary: &str) -> (r: bool)
    ensures
        r == in_any_category(*cfg, binary@),
{
    let mut j: usize = 0;
    while j < cfg.category.len()
        invariant
            j <= cfg.category@.len(),
            forall|k: int| 0 <= k < j ==> !is_member(#[trigger] cfg.category@[k], binary@),
        decreases cfg.category.len() - j,
    {
        if member_of(&cfg.category[j], binary) {
            return true;
        }
        j += 1;
    }
    false
}

/// Whether some fader of `cfg` targets the app `binary` directly.
fn targeted_by_app_fader(cfg: &Config, binary: &str) -> (r: bool)
    ensures
        r == directly_targeted(*cfg, binary@),
{
    let mut f: usize = 0;
    while f < cfg.fader.len()
        invariant
            f <= cfg.fader@.len(),
            forall|k: int| 0 <= k < f ==> !targets_app(#[trigger] cfg.fader@[k], binary@),
        decreases cfg.fader.len() - f,
    {
        match &cfg.fader[f].target {
            Target::App { binary: b } => {
                if eq_ci(binary, b.as_str()) {
                    return true;
                }
            },
            _ => {},
        }
        f += 1;
    }
    false
}

/// Resolve the targets of `cfg.fader[fader_index]` against a world snapshot.
///
/// The whole config is needed (not just the one fader) because Unassigned
/// depends on every category and on the other faders' direct app targets.
/// A fader index past the end resolves to nothing.
pub fn resolve_targets<'w>(cfg: &Config, fader_index: usize, world: &'w World) -> (r: Resolved<'w>)
    ensures
        r.sink_view() == world.sinks@.filter(|s: SinkNode| sink_selected(*cfg, fader_index as int, s)),
        r.stream_view() == world.streams@.filter(
            |s: StreamNode| stream_selected(*cfg, fader_index as int, s),
        ),
        fader_index < cfg.fader@.len() && cfg.fader@[fader_index as int].target is App ==> (forall|k: int|
            0 <= k < r.streams@.len() ==> eq_ignore_ascii_case(
                (#[trigger] r.streams@[k]).binary@,
                cfg.fader@[fader_index as int].target->binary@,
            )) && (forall|i: int|
            0 <= i < world.streams@.len() && eq_ignore_ascii_case(
                (#[trigger] world.streams@[i]).binary@,
                cfg.fader@[fader_index as int].target->binary@,
            ) ==> r.stream_view().contains(world.streams@[i])),
{
    let ghost sp = |s: SinkNode| sink_selected(*cfg, fader_index as int, s);
    let ghost tp = |s: StreamNode| stream_selected(*cfg, fader_index as int, s);
    let mut out: Resolved<'w> = Resolved { sinks: Vec::new(), streams: Vec::new() };
    if fader_index >= cfg.fader.len() {
        proof {
            broadcast use vstd::seq_lib::group_filter_ensures;
            if world.sinks@.filter(sp).len() > 0 {
                assert(sp(world.sinks@.filter(sp)[0]));
            }
            if world.streams@.filter(tp).len() > 0 {
                assert(tp(world.streams@.filter(tp)[0]));
            }
            assert(world.sinks@.filter(sp) =~= Seq::empty());
            assert(world.streams@.filter(tp) =~= Seq::empty());
            assert(out.sink_view() =~= Seq::empty());
            assert(out.stream_view() =~= Seq::empty());
        }
        return out;
    }
    let fader = &cfg.fader[fader_index];
    let category = match &fader.target {
        Target::Category { name } => find_category(cfg, name.as_str()),
        _ => None,
    };
    let mut i: usize = 0;
    while i < world.sinks.len()
        invariant
            i <= world.sinks@.len(),
            fader_index < cfg.fader@.len(),
            *fader == cfg.fader@[fader_index as int],
            out.sink_view() == world.sinks@.take(i as int).filter(sp),
            out.streams@.len() == 0,
            sp == (|s: SinkNode| sink_selected(*cfg, fader_index as int, s)),
        decreases world.sinks.len() - i,
    {
        let s = &world.sinks[i];
        let keep = match &fader.target {
            Target::Sink { name_match } => contains_ci(s.description.as_str(), name_match.as_str())
                || contains_ci(s.name.as_str(), name_match.as_str()),
            _ => false,
        };
        proof {
            lemma_filter_take_step(world.sinks@, sp, i as int);
            assert(keep == sp(world.sinks@[i as int]));
        }
        if keep {
            let ghost before = out.sinks@;
            out.sinks.push(s);
            proof {
                assert(out.sinks@ == before.push(s));
                assert(out.sink_view() =~= before.map_values(|s: &SinkNode| *s).push(*s));
            }
        }
        i += 1;
    }
    proof {
        assert(world.sinks@.take(world.sinks@.len() as int) =~= world.sinks@);
        reveal_with_fuel(Seq::filter, 1);
        assert(world.streams@.take(0) =~= Seq::<StreamNode>::empty());
        assert(out.stream_view() =~= Seq::<StreamNode>::empty());
    }
    let mut i: usize = 0;
    while i < world.streams.len()
        invariant
            i <= world.streams@.len(),
            fader_index < cfg.fader@.len(),
            *fader == cfg.fader@[fader_index as int],
            out.sink_view() == world.sinks@.filter(sp),
            out.stream_view() == world.streams@.take(i as int).filter(tp),
            tp == (|s: StreamNode| stream_selected(*cfg, fader_index as int, s)),
            match cfg.fader@[fader_index as int].target {
                Target::Category { name } => match category {
                    Some(j) => first_category(*cfg, name@, j as int),
                    None => forall|k: int|
                        0 <= k < cfg.category@.len() ==> !eq_ignore_ascii_case(
                            #[trigger] cfg.category@[k].name@,
                            name@,
                        ),
                },
                _ => true,
            },
        decreases world.streams.len() - i,
    {
        let s = &world.streams[i];
        let b = s.binary.as_str();
        let keep = match &fader.target {
            Target::Sink { .. } => false,
            Target::App { binary } => eq_ci(b, binary.as_str()),
            Target::Category { name } => match category {
                Some(j) => member_of(&cfg.category[j], b),
                None => false,
            },
            Target::Unassigned => !member_of_any(cfg, b) && !targeted_by_app_fader(cfg, b),
        };
        proof {
            lemma_filter_take_step(world.streams@, tp, i as int);
            match cfg.fader@[fader_index as int].target {
                Target::Category { name } => {
                    match category {
                        Some(j) => {
                            if in_named_category(*cfg, name@, b@) {
                                let jj = choose|jj: int|
                                    first_category(*cfg, name@, jj) && is_member(
                                        #[trigger] cfg.category@[jj],
                                        b@,
                                    );
                                if jj < j {
                                    assert(!eq_ignore_ascii_case(cfg.category@[jj].name@, name@));
                                } else if jj > j {
                                    assert(!eq_ignore_ascii_case(cfg.category@[j as int].name@, name@));
                                }
                            }
                        },
                        None => {},
                    }
                },
                _ => {},
            }
            assert(keep == tp(world.streams@[i as int]));
        }
        if keep {
            let ghost before = out.streams@;
            out.streams.push(s);
            proof {
                assert(out.streams@ == before.push(s));
                assert(out.stream_view() =~= before.map_values(|s: &StreamNode| *s).push(*s));
            }
        }
        i += 1;
    }
    proof {
        assert(world.streams@.take(world.streams@.len() as int) =~= world.streams@);
        broadcast use vstd::seq_lib::group_filter_ensures;
        if cfg.fader@[fader_index as int].target is App {
            assert forall|k: int| 0 <= k < out.streams@.len() implies eq_ignore_ascii_case(
                (#[trigger] out.streams@[k]).binary@,
                cfg.fader@[fader_index as int].target->binary@,
            ) by {
                assert(out.stream_view()[k] == *out.streams@[k]);
                assert(tp(world.streams@.filter(tp)[k]));
            }
            assert forall|i: int|
                0 <= i < world.streams@.len() && eq_ignore_ascii_case(
                    (#[trigger] world.streams@[i]).binary@,
                    cfg.fader@[fader_index as int].target->binary@,
                ) implies out.stream_view().contains(world.streams@[i]) by {
                assert(tp(world.streams@[i]));
            }
        }
    }
    out
}

} // verus!
