use crate::batch::{entry_selected, strings_view, DirEntryInfo};
use crate::converter::{is_supported_image, is_supported_path, ConversionConfig};
use crate::text::string_from_chars;
use vstd::prelude::*;

verus! {

/// What watch mode watches and how it converts.
#[derive(Clone, Debug)]
pub struct WatchConfig {
    pub source_dir: String,
    pub output_dir: String,
    pub conversion: ConversionConfig,
    /// 0 means "react to file events only, no periodic sweep"
    pub interval_secs: u64,
}

/// The state of watch mode as the interface shows it.
#[derive(Clone, Debug)]
pub struct WatchStatus {
    pub active: bool,
    pub source_dir: Option<String>,
    pub output_dir: Option<String>,
    pub last_run: Option<String>,
}

/// The decimal digit for `d`.
pub open spec fn digit_char(d: nat) -> char {
    seq!['0', '1', '2', '3', '4', '5', '6', '7', '8', '9'][d as int]
}

/// The decimal numeral of `n`, without leading zeros.
pub open spec fn decimal(n: nat) -> Seq<char>
    decreases n,
{
    if n < 10 {
        seq![digit_char(n)]
    } else {
        decimal(n / 10).push(digit_char(n % 10))
    }
}

fn push_digit(out: &mut Vec<char>, d: u64)
    requires
        d < 10,
    ensures
        final(out)@ == old(out)@.push(digit_char(d as nat)),
{
    let digits = ['0', '1', '2', '3', '4', '5', '6', '7', '8', '9'];
    assert(digits@ =~= seq!['0', '1', '2', '3', '4', '5', '6', '7', '8', '9']);
    out.push(digits[d as usize]);
}

fn push_decimal(out: &mut Vec<char>, n: u64)
    ensures
        final(out)@ == old(out)@ + decimal(n as nat),
    decreases n,
{
    if n >= 10 {
        push_decimal(out, n / 10);
    }
    push_digit(out, n % 10);
    assert(final(out)@ =~= old(out)@ + decimal(n as nat));
}

/// The decimal numeral of `n` as a string.
pub fn decimal_string(n: u64) -> (r: String)
    ensures
        r@ == decimal(n as nat),
{
    let mut cs: Vec<char> = Vec::new();
    push_decimal(&mut cs, n);
    assert(cs@ =~= decimal(n as nat));
    string_from_chars(cs.as_slice())
}

/// The status of a running watch: active, its directories, and the time of the last
/// conversion run in whole seconds since the Unix epoch, when that time is known.
pub fn watch_status(config: &WatchConfig, last_processed_secs: Option<u64>) -> (r: WatchStatus)
    ensures
        r.active,
        r.source_dir matches Some(s) && s@ == config.source_dir@,
        r.output_dir matches Some(o) && o@ == config.output_dir@,
        match last_processed_secs {
            Some(secs) => r.last_run matches Some(l) && l@ == decimal(secs as nat),
            None => r.last_run is None,
        },
{
    let last_run = match last_processed_secs {
        Some(secs) => Some(decimal_string(secs)),
        None => None,
    };
    WatchStatus {
        active: true,
        source_dir: Some(config.source_dir.clone()),
        output_dir: Some(config.output_dir.clone()),
        last_run,
    }
}

/// The status when no watch is running.
pub fn idle_status() -> (r: WatchStatus)
    ensures
        !r.active,
        r.source_dir is None,
        r.output_dir is None,
        r.last_run is None,
{
    WatchStatus { active: false, source_dir: None, output_dir: None, last_run: None }
}

/// The kind of a file-system event, as far as watch mode tells them apart.
pub enum FsEventKind {
    Create,
    Modify,
    Other,
}

/// Something that may start a conversion run while watching.
pub enum WatchEvent {
    /// Files were created, changed or otherwise touched.
    FileEvent { kind: FsEventKind, paths: Vec<String> },
    /// The periodic sweep found these images newer than the last run.
    Sweep { found: Vec<String> },
}

/// The supported images among `paths`, in order.
pub open spec fn supported_only(paths: Seq<Seq<char>>) -> Seq<Seq<char>>
    decreases paths.len(),
{
    if paths.len() == 0 {
        Seq::<Seq<char>>::empty()
    } else {
        let init = supported_only(paths.drop_last());
        if is_supported_path(paths.last()) {
            init.push(paths.last())
        } else {
            init
        }
    }
}

/// The images a watch event asks to convert: the supported images a creation or change
/// touched, or everything the sweep found; nothing when that is empty or the event is of
/// another kind.
pub open spec fn event_batch(event: WatchEvent) -> Option<Seq<Seq<char>>> {
    match event {
        WatchEvent::FileEvent { kind, paths } => match kind {
            FsEventKind::Other => None,
            _ => {
                let images = supported_only(strings_view(paths@));
                if images.len() == 0 {
                    None
                } else {
                    Some(images)
                }
            },
        },
        WatchEvent::Sweep { found } => if found@.len() == 0 {
            None
        } else {
            Some(strings_view(found@))
        },
    }
}

/// The test by which a file event keeps a path: it names a supported image.
pub open spec fn is_supported_text() -> spec_fn(Seq<char>) -> bool {
    |p: Seq<char>| is_supported_path(p)
}

/// The supported images among `paths` are `paths` filtered by support, in order.
pub proof fn lemma_supported_only_is_a_filter(paths: Seq<Seq<char>>)
    ensures
        supported_only(paths) == paths.filter(is_supported_text()),
    decreases paths.len(),
{
    reveal(Seq::filter);
    if paths.len() > 0 {
        lemma_supported_only_is_a_filter(paths.drop_last());
    }
}

/// A file event that creates or changes files sends exactly the supported images among its
/// paths, in order, and nothing when there are none; a change is handled like a creation;
/// an event of another kind sends nothing.
pub proof fn lemma_file_event_batch(kind: FsEventKind, paths: Vec<String>)
    ensures
        ({
            let supported = strings_view(paths@).filter(is_supported_text());
            let batch = event_batch(WatchEvent::FileEvent { kind, paths });
            &&& kind is Other ==> batch is None
            &&& !(kind is Other) && supported.len() > 0 ==> batch == Some(supported)
            &&& !(kind is Other) && supported.len() == 0 ==> batch is None
        }),
        event_batch(WatchEvent::FileEvent { kind: FsEventKind::Modify, paths }) == event_batch(
            WatchEvent::FileEvent { kind: FsEventKind::Create, paths },
        ),
{
    lemma_supported_only_is_a_filter(strings_view(paths@));
}

/// A change event on files that include a supported image always starts a conversion of it.
pub proof fn lemma_change_event_converts_supported_images(paths: Vec<String>, i: int)
    requires
        0 <= i < paths@.len(),
        is_supported_path(paths@[i]@),
    ensures
        event_batch(WatchEvent::FileEvent { kind: FsEventKind::Modify, paths }) matches Some(b)
            && b.contains(paths@[i]@),
{
    lemma_file_event_batch(FsEventKind::Modify, paths);
    let v = strings_view(paths@);
    assert(v[i] == paths@[i]@);
    v.lemma_filter_contains(is_supported_text(), i);
}

/// Decides which images a watch event sends for conversion (see [`event_batch`]).
pub fn batch_for_event(event: WatchEvent) -> (r: Option<Vec<String>>)
    ensures
        match event_batch(event) {
            Some(b) => r is Some && strings_view(r->0@) == b,
            None => r is None,
        },
{
    match event {
        WatchEvent::FileEvent { kind, paths } => {
            match kind {
                FsEventKind::Other => {
                    return None;
                },
                _ => {},
            }
            let mut images: Vec<String> = Vec::new();
            let mut i: usize = 0;
            while i < paths.len()
                invariant
                    i <= paths@.len(),
                    strings_view(images@) == supported_only(strings_view(paths@).take(i as int)),
                decreases paths@.len() - i,
            {
                assert(strings_view(paths@).take(i + 1).drop_last() =~= strings_view(paths@).take(i as int));
                if is_supported_image(paths[i].as_str()) {
                    let ghost before = images@;
                    images.push(paths[i].clone());
                    assert(strings_view(images@) =~= strings_view(before).push(paths@[i as int]@));
                }
                i = i + 1;
            }
            assert(strings_view(paths@).take(paths@.len() as int) =~= strings_view(paths@));
            if images.len() == 0 {
                None
            } else {
                Some(images)
            }
        },
        WatchEvent::Sweep { found } => {
            if found.len() == 0 {
                None
            } else {
                Some(found)
            }
        },
    }
}

/// Pairs every image of a watch batch with the watched directory as its source root.
pub fn watch_sources(paths: &Vec<String>, source_dir: &str) -> (r: Vec<(String, String)>)
    ensures
        r@.len() == paths@.len(),
        forall|i: int| 0 <= i < r@.len() ==> r@[i].0@ == paths@[i]@ && r@[i].1@ == source_dir@,
{
    let mut r: Vec<(String, String)> = Vec::new();
    let mut i: usize = 0;
    while i < paths.len()
        invariant
            i <= paths@.len(),
            r@.len() == i,
            forall|k: int| 0 <= k < i ==> r@[k].0@ == paths@[k]@ && r@[k].1@ == source_dir@,
        decreases paths@.len() - i,
    {
        r.push((paths[i].clone(), source_dir.to_owned()));
        i = i + 1;
    }
    r
}

/// The period of the sweep in seconds, or `None` when the watch reacts to file events only.
pub fn sweep_period(config: &WatchConfig) -> (r: Option<u64>)
    ensures
        config.interval_secs > 0 ==> r == Some(config.interval_secs),
        config.interval_secs == 0 ==> r is None,
{
    if config.interval_secs > 0 {
        Some(config.interval_secs)
    } else {
        None
    }
}

/// What started a conversion run in watch mode.
#[derive(Clone, Copy, Debug, PartialEq, Eq, Structural)]
pub enum RunKind {
    /// File-system events named the images.
    Events,
    /// The periodic sweep collected the images.
    Sweep,
}

/// The times that watch mode keeps, in nanoseconds from the Unix epoch (negative before it):
/// the cutoff from which the periodic sweep looks for new files, and when the last
/// conversion run ended.
pub struct SweepClock {
    pub cutoff: i128,
    pub last_run: i128,
}

/// The cutoff after a run of `kind` whose images were collected at `started`: a sweep has
/// looked at everything modified up to `started`, so the cutoff moves there; a run started
/// by events says nothing of files whose events were missed, so the cutoff stays.
pub open spec fn next_cutoff(cutoff: i128, kind: RunKind, started: i128) -> i128 {
    match kind {
        RunKind::Events => cutoff,
        RunKind::Sweep => started,
    }
}

/// The cutoff after the runs `runs` (kind and collection time, in order) from `cutoff`.
pub open spec fn cutoff_after(cutoff: i128, runs: Seq<(RunKind, i128)>) -> i128
    decreases runs.len(),
{
    if runs.len() == 0 {
        cutoff
    } else {
        next_cutoff(cutoff_after(cutoff, runs.drop_last()), runs.last().0, runs.last().1)
    }
}

impl SweepClock {
    /// The clock of a watch that starts at `now`.
    pub fn start(now: i128) -> (r: SweepClock)
        ensures
            r.cutoff == now,
            r.last_run == now,
    {
        SweepClock { cutoff: now, last_run: now }
    }

    /// The cutoff of the next sweep: files modified strictly after it are new.
    pub fn cutoff(&self) -> (r: i128)
        ensures
            r == self.cutoff,
    {
        self.cutoff
    }

    /// The clock after a conversion run of `kind` whose images were collected at `started`
    /// and which ended at `finished`.
    pub fn after_run(&self, kind: RunKind, started: i128, finished: i128) -> (r: SweepClock)
        ensures
            r.cutoff == next_cutoff(self.cutoff, kind, started),
            r.last_run == finished,
    {
        let cutoff = match kind {
            RunKind::Events => self.cutoff,
            RunKind::Sweep => started,
        };
        SweepClock { cutoff, last_run: finished }
    }

    /// The end of the last run in whole seconds since the Unix epoch; `None` before the epoch (or beyond
    /// what 64 bits hold).
    pub fn last_run_secs(&self) -> (r: Option<u64>)
        ensures
            self.last_run >= 0 && self.last_run / 1_000_000_000 <= u64::MAX ==> r == Some(
                (self.last_run / 1_000_000_000) as u64,
            ),
            !(self.last_run >= 0 && self.last_run / 1_000_000_000 <= u64::MAX) ==> r is None,
    {
        if self.last_run >= 0 {
            let secs = self.last_run / 1_000_000_000;
            if secs <= u64::MAX as i128 {
                Some(secs as u64)
            } else {
                None
            }
        } else {
            None
        }
    }
}

/// A supported file modified after the sweep cutoff is still new to the next sweep, whatever
/// runs started by file events happen in between: the periodic sweep catches every file whose
/// event was missed.
pub proof fn lemma_missed_files_reach_the_next_sweep(
    cutoff: i128,
    runs: Seq<(RunKind, i128)>,
    e: DirEntryInfo,
)
    requires
        forall|i: int| 0 <= i < runs.len() ==> (#[trigger] runs[i]).0 == RunKind::Events,
        e.is_file,
        is_supported_path(e.path@),
        e.modified matches Some(m) && m > cutoff,
    ensures
        entry_selected(e, Some(cutoff_after(cutoff, runs))),
    decreases runs.len(),
{
    if runs.len() > 0 {
        let init = runs.drop_last();
        assert forall|i: int| 0 <= i < init.len() implies (#[trigger] init[i]).0
            == RunKind::Events by {
            assert(init[i] == runs[i]);
        }
        lemma_missed_files_reach_the_next_sweep(cutoff, init, e);
        assert(runs.last() == runs[runs.len() - 1]);
    }
}

/// After a sweep whose images were collected at `started`, every supported file modified
/// since then, during the run or while events were missed, is new to the next sweep.
pub proof fn lemma_sweep_keeps_files_written_during_a_run(
    cutoff: i128,
    started: i128,
    e: DirEntryInfo,
)
    requires
        e.is_file,
        is_supported_path(e.path@),
        e.modified matches Some(m) && m > started,
    ensures
        entry_selected(e, Some(next_cutoff(cutoff, RunKind::Sweep, started))),
{
}

} // verus!
