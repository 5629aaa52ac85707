//! Read-only derivations over a profile: the activity heatmap, the
//! distribution of active time over the hours of the day, the breakdown by
//! language, and the rollups of the last days.
//!
//! Ratios are left to the caller: a cell's intensity is its `raw_minutes`
//! over the heatmap's `max_minutes`, and a language's share is its `time_ms`
//! over the sum of all of them.

use std::collections::HashMap;
use vstd::prelude::*;
use crate::clock::{day_number, hour_number, hour_of, now_millis};
use crate::languages::{
    holds_name, lemma_entry_in_map, lemma_name_le_antisymmetric, lemma_name_le_total,
    lemma_name_le_transitive, name_precedes, names_distinct, outranks, place_of, times_of,
    LanguageTime,
};
use crate::storage::{
    has_date, lemma_place_of_date, place_of_date, DailyAggregate, DailyAggregateModel,
    GrowthProfile, StoredSessionModel,
};

verus! {

/// What `str::to_lowercase` makes of a text: the text with every character
/// replaced by its lowercase form as Unicode defines it.
pub uninterp spec fn lowercase_of(text: Seq<char>) -> Seq<char>;

/// Calls `str::to_lowercase`, whose result depends on the text alone.
#[verifier::external_body]
fn to_lowercase(text: &str) -> (lower: String)
    ensures
        lower@ == lowercase_of(text@),
{
    text.to_lowercase()
}

/// The display colour of the language whose lowercase name is `lowered`:
/// one of eleven fixed colours for the languages that are known, and grey
/// for every other name.
pub open spec fn color_of(lowered: Seq<char>) -> Seq<char> {
    if lowered == "typescript"@ {
        "#3178c6"@
    } else if lowered == "javascript"@ {
        "#f7df1e"@
    } else if lowered == "python"@ {
        "#3776ab"@
    } else if lowered == "rust"@ {
        "#dea584"@
    } else if lowered == "go"@ {
        "#00add8"@
    } else if lowered == "java"@ {
        "#b07219"@
    } else if lowered == "csharp"@ || lowered == "c#"@ {
        "#239120"@
    } else if lowered == "cpp"@ || lowered == "c++"@ {
        "#f34b7d"@
    } else if lowered == "ruby"@ {
        "#cc342d"@
    } else if lowered == "swift"@ {
        "#fa7343"@
    } else if lowered == "kotlin"@ {
        "#a97bff"@
    } else {
        "#6e7681"@
    }
}

/// Whether `text` reads as `literal`.
fn reads_as(text: &String, literal: &str) -> (same: bool)
    ensures
        same == (text@ == literal@),
{
    let other = literal.to_owned();
    *text == other
}

/// The display colour of the language whose name, in lowercase, is
/// `lowered`.
pub fn color_for(lowered: &String) -> (color: String)
    ensures
        color@ == color_of(lowered@),
{
    if reads_as(lowered, "typescript") {
        "#3178c6".to_owned()
    } else if reads_as(lowered, "javascript") {
        "#f7df1e".to_owned()
    } else if reads_as(lowered, "python") {
        "#3776ab".to_owned()
    } else if reads_as(lowered, "rust") {
        "#dea584".to_owned()
    } else if reads_as(lowered, "go") {
        "#00add8".to_owned()
    } else if reads_as(lowered, "java") {
        "#b07219".to_owned()
    } else if reads_as(lowered, "csharp") || reads_as(lowered, "c#") {
        "#239120".to_owned()
    } else if reads_as(lowered, "cpp") || reads_as(lowered, "c++") {
        "#f34b7d".to_owned()
    } else if reads_as(lowered, "ruby") {
        "#cc342d".to_owned()
    } else if reads_as(lowered, "swift") {
        "#fa7343".to_owned()
    } else if reads_as(lowered, "kotlin") {
        "#a97bff".to_owned()
    } else {
        "#6e7681".to_owned()
    }
}

/// The display colour of `language`, whose name may be written in any case.
pub fn get_language_color(language: &str) -> (color: String)
    ensures
        color@ == color_of(lowercase_of(language@)),
{
    let lowered = to_lowercase(language);
    color_for(&lowered)
}

/// One day of the activity heatmap.
#[derive(Clone, Copy, Debug)]
pub struct HeatmapCell {
    /// The column within the week, 0 to 6.
    pub day: u8,
    /// The row: 0 is the oldest week shown.
    pub week: u8,
    /// Always 0 in a heatmap by days.
    pub hour: u8,
    /// The minutes of active time recorded for the day.
    pub raw_minutes: u32,
}

/// The activity heatmap of the last weeks.
pub struct HeatmapData {
    pub cells: Vec<HeatmapCell>,
    pub max_minutes: u32,
    pub weeks: u8,
    pub total_minutes: u32,
}

/// Whole minutes in `total_time_ms` milliseconds.
pub open spec fn minutes_of(total_time_ms: u64) -> nat {
    (total_time_ms as nat / 1000) / 60
}

/// The minutes that a rollup adds to a window of days from `start` to
/// `today`: its minutes if its day lies in the window, and nothing otherwise.
pub open spec fn window_minutes(aggregate: DailyAggregateModel, start: int, today: int) -> nat {
    if start <= aggregate.date <= today {
        minutes_of(aggregate.total_time_ms)
    } else {
        0
    }
}

/// The sum of the minutes of the rollups whose day lies in the window.
pub open spec fn window_total(aggregates: Seq<DailyAggregateModel>, start: int, today: int) -> nat
    decreases aggregates.len(),
{
    if aggregates.len() == 0 {
        0
    } else {
        window_total(aggregates.drop_last(), start, today) + window_minutes(
            aggregates.last(),
            start,
            today,
        )
    }
}

/// The most minutes of any rollup whose day lies in the window; zero for a
/// window without rollups.
pub open spec fn window_max(aggregates: Seq<DailyAggregateModel>, start: int, today: int) -> nat
    decreases aggregates.len(),
{
    if aggregates.len() == 0 {
        0
    } else {
        let earlier = window_max(aggregates.drop_last(), start, today);
        let minutes = window_minutes(aggregates.last(), start, today);
        if minutes > earlier {
            minutes
        } else {
            earlier
        }
    }
}

/// The minutes recorded for the day `date`: those of its rollup, and zero
/// for a day without one.
pub open spec fn minutes_on(aggregates: Seq<DailyAggregateModel>, date: int) -> nat {
    if i64::MIN <= date <= i64::MAX && has_date(aggregates, date as i64) {
        minutes_of(aggregates[place_of_date(aggregates, date as i64)].total_time_ms)
    } else {
        0
    }
}

/// The day that the cell at place `k` of a heatmap of `weeks` weeks stands
/// for: the heatmap ends with the week that ends `today`, and each week
/// runs from its latest day back.
pub open spec fn cell_date(weeks: u8, today: i64, k: int) -> int {
    today - ((weeks - k / 7 - 1) * 7 + k % 7)
}

/// The cell at place `k`.
pub open spec fn cell_at(
    aggregates: Seq<DailyAggregateModel>,
    weeks: u8,
    today: i64,
    k: int,
) -> HeatmapCell {
    HeatmapCell {
        day: (k % 7) as u8,
        week: (k / 7) as u8,
        hour: 0,
        raw_minutes: minutes_on(aggregates, cell_date(weeks, today, k)) as u32,
    }
}

/// The cells of the heatmap: seven for each week, week by week.
pub open spec fn heat_cells(aggregates: Seq<DailyAggregateModel>, weeks: u8, today: i64) -> Seq<
    HeatmapCell,
> {
    Seq::new((7 * weeks) as nat, |k: int| cell_at(aggregates, weeks, today, k))
}

/// The minutes in the window of a heatmap of `weeks` weeks that ends
/// `today` add up within `u32`.
pub open spec fn heatmap_fits(aggregates: Seq<DailyAggregateModel>, weeks: u8, today: i64) -> bool {
    window_total(aggregates, today - 7 * weeks, today as int) <= u32::MAX
}

/// The minutes of all rollups, whatever their day, add up within `u32`: so
/// do those of every window.
pub open spec fn minutes_always_fit(aggregates: Seq<DailyAggregateModel>) -> bool {
    window_total(aggregates, i64::MIN as int, i64::MAX as int) <= u32::MAX
}

/// A window within another holds no more minutes than the other.
pub proof fn lemma_window_total_widens(
    aggregates: Seq<DailyAggregateModel>,
    start: int,
    today: int,
    wider_start: int,
    wider_today: int,
)
    requires
        wider_start <= start,
        today <= wider_today,
    ensures
        window_total(aggregates, start, today) <= window_total(
            aggregates,
            wider_start,
            wider_today,
        ),
    decreases aggregates.len(),
{
    if aggregates.len() > 0 {
        lemma_window_total_widens(aggregates.drop_last(), start, today, wider_start, wider_today);
    }
}

/// The total of a shorter cut of the rollups is at most the total of all.
pub proof fn lemma_window_total_grows(
    aggregates: Seq<DailyAggregateModel>,
    n: int,
    start: int,
    today: int,
)
    requires
        0 <= n <= aggregates.len(),
    ensures
        window_total(aggregates.take(n), start, today) <= window_total(aggregates, start, today),
    decreases aggregates.len() - n,
{
    if n == aggregates.len() {
        assert(aggregates.take(n) =~= aggregates);
    } else {
        lemma_window_total_grows(aggregates, n + 1, start, today);
        assert(aggregates.take(n + 1).drop_last() =~= aggregates.take(n));
    }
}

/// A rollup in the window has no more minutes than the window's total.
pub proof fn lemma_window_total_bounds(
    aggregates: Seq<DailyAggregateModel>,
    i: int,
    start: int,
    today: int,
)
    requires
        0 <= i < aggregates.len(),
    ensures
        window_minutes(aggregates[i], start, today) <= window_total(aggregates, start, today),
{
    lemma_window_total_grows(aggregates, i + 1, start, today);
    assert(aggregates.take(i + 1).drop_last() =~= aggregates.take(i));
    assert(aggregates.take(i + 1).last() == aggregates[i]);
}

/// The heatmap of the `weeks` weeks that end on the day `today`.
pub fn generate_heatmap_at(profile: &GrowthProfile, weeks: u8, today: i64) -> (heatmap: HeatmapData)
    requires
        profile.wf(),
        heatmap_fits(profile@.daily_aggregates, weeks, today),
    ensures
        heatmap.weeks == weeks,
        heatmap.cells@ == heat_cells(profile@.daily_aggregates, weeks, today),
        heatmap.max_minutes == window_max(
            profile@.daily_aggregates,
            today - 7 * weeks,
            today as int,
        ),
        heatmap.total_minutes == window_total(
            profile@.daily_aggregates,
            today - 7 * weeks,
            today as int,
        ),
{
    let ghost aggregates = profile@.daily_aggregates;
    let start: i128 = today as i128 - 7 * (weeks as i128);
    let mut max_minutes: u32 = 0;
    let mut total_minutes: u32 = 0;
    let mut i: usize = 0;
    while i < profile.daily_aggregates.len()
        invariant
            i <= profile.daily_aggregates@.len(),
            aggregates == profile@.daily_aggregates,
            start == today - 7 * weeks,
            window_total(aggregates, start as int, today as int) <= u32::MAX,
            total_minutes == window_total(aggregates.take(i as int), start as int, today as int),
            max_minutes == window_max(aggregates.take(i as int), start as int, today as int),
        decreases profile.daily_aggregates@.len() - i,
    {
        let daily = &profile.daily_aggregates[i];
        proof {
            assert(aggregates.take(i + 1).drop_last() =~= aggregates.take(i as int));
            assert(aggregates.take(i + 1).last() == aggregates[i as int]);
            lemma_window_total_grows(aggregates, i + 1, start as int, today as int);
            lemma_window_total_bounds(aggregates, i as int, start as int, today as int);
        }
        if daily.date as i128 >= start && daily.date <= today {
            let minutes = (daily.total_time_ms / 1000 / 60) as u32;
            total_minutes = total_minutes + minutes;
            if minutes > max_minutes {
                max_minutes = minutes;
            }
        }
        i += 1;
    }
    proof {
        assert(aggregates.take(i as int) =~= aggregates);
    }
    let mut cells: Vec<HeatmapCell> = Vec::new();
    let mut week: u8 = 0;
    while week < weeks
        invariant
            week <= weeks,
            profile.wf(),
            aggregates == profile@.daily_aggregates,
            start == today - 7 * weeks,
            window_total(aggregates, start as int, today as int) <= u32::MAX,
            cells@ == heat_cells(aggregates, weeks, today).take(7 * week),
        decreases weeks - week,
    {
        let mut day: u8 = 0;
        while day < 7
            invariant
                day <= 7,
                week < weeks,
                profile.wf(),
                aggregates == profile@.daily_aggregates,
                start == today - 7 * weeks,
                window_total(aggregates, start as int, today as int) <= u32::MAX,
                cells@ == heat_cells(aggregates, weeks, today).take(7 * week + day),
            decreases 7 - day,
        {
            let ghost k: int = 7 * week + day;
            let offset_days: i128 = ((weeks - week - 1) as i128) * 7 + day as i128;
            let date: i128 = today as i128 - offset_days;
            proof {
                assert(k / 7 == week && k % 7 == day);
                assert(date == cell_date(weeks, today, k));
            }
            let raw_minutes: u32 = if date < i64::MIN as i128 {
                0
            } else {
                match profile.position_of_date(date as i64) {
                    Some(place) => {
                        proof {
                            lemma_place_of_date(aggregates, place as int);
                            lemma_window_total_bounds(
                                aggregates,
                                place as int,
                                start as int,
                                today as int,
                            );
                        }
                        (profile.daily_aggregates[place].total_time_ms / 1000 / 60) as u32
                    },
                    None => 0,
                }
            };
            cells.push(HeatmapCell { day, week, hour: 0, raw_minutes });
            proof {
                let all = heat_cells(aggregates, weeks, today);
                assert(all.take(k + 1) =~= all.take(k).push(all[k]));
            }
            day += 1;
        }
        week += 1;
    }
    proof {
        let all = heat_cells(aggregates, weeks, today);
        assert(all.take(7 * weeks) =~= all);
    }
    HeatmapData { cells, max_minutes, weeks, total_minutes }
}

/// The heatmap of the `weeks` weeks that end today.
pub fn generate_heatmap(profile: &GrowthProfile, weeks: u8) -> (heatmap: HeatmapData)
    requires
        profile.wf(),
        minutes_always_fit(profile@.daily_aggregates),
    ensures
        heatmap.weeks == weeks,
        exists|today: i64|
            {
                &&& heatmap.cells@ == heat_cells(profile@.daily_aggregates, weeks, today)
                &&& heatmap.max_minutes == window_max(
                    profile@.daily_aggregates,
                    today - 7 * weeks,
                    today as int,
                )
                &&& heatmap.total_minutes == window_total(
                    profile@.daily_aggregates,
                    today - 7 * weeks,
                    today as int,
                )
            },
{
    let today = day_number(now_millis());
    proof {
        lemma_window_total_widens(
            profile@.daily_aggregates,
            today - 7 * weeks,
            today as int,
            i64::MIN as int,
            i64::MAX as int,
        );
    }
    let heatmap = generate_heatmap_at(profile, weeks, today);
    proof {
        assert(heatmap.cells@ == heat_cells(profile@.daily_aggregates, weeks, today));
    }
    heatmap
}

/// Whether the minutes of the rollups whose day lies between `start` and
/// `today` add up within `u32`.
fn window_fits(profile: &GrowthProfile, start: i128, today: i64) -> (fits: bool)
    ensures
        fits == (window_total(profile@.daily_aggregates, start as int, today as int) <= u32::MAX),
{
    let ghost aggregates = profile@.daily_aggregates;
    let mut total: u64 = 0;
    let mut i: usize = 0;
    while i < profile.daily_aggregates.len()
        invariant
            i <= profile.daily_aggregates@.len(),
            aggregates == profile@.daily_aggregates,
            total == window_total(aggregates.take(i as int), start as int, today as int),
            total <= u32::MAX,
        decreases profile.daily_aggregates@.len() - i,
    {
        let daily = &profile.daily_aggregates[i];
        proof {
            assert(aggregates.take(i + 1).drop_last() =~= aggregates.take(i as int));
            assert(aggregates.take(i + 1).last() == aggregates[i as int]);
            lemma_window_total_grows(aggregates, i + 1, start as int, today as int);
        }
        if daily.date as i128 >= start && daily.date <= today {
            let minutes: u64 = daily.total_time_ms / 1000 / 60;
            if minutes > u32::MAX as u64 - total {
                proof {
                    assert(window_total(aggregates.take(i + 1), start as int, today as int)
                        == total + minutes);
                }
                return false;
            }
            total = total + minutes;
        }
        i += 1;
    }
    proof {
        assert(aggregates.take(i as int) =~= aggregates);
    }
    true
}

/// Decides [`heatmap_fits`].
pub fn heatmap_window_fits(profile: &GrowthProfile, weeks: u8, today: i64) -> (fits: bool)
    ensures
        fits == heatmap_fits(profile@.daily_aggregates, weeks, today),
{
    window_fits(profile, today as i128 - 7 * (weeks as i128), today)
}

/// Decides [`minutes_always_fit`].
pub fn all_minutes_fit(profile: &GrowthProfile) -> (fits: bool)
    ensures
        fits == minutes_always_fit(profile@.daily_aggregates),
{
    window_fits(profile, i64::MIN as i128, i64::MAX)
}

/// The time that a table by hours holds for `hour`: zero where it has no
/// such key.
pub open spec fn hour_time(hours: Map<u8, u64>, hour: u8) -> nat {
    if hours.contains_key(hour) {
        hours[hour] as nat
    } else {
        0
    }
}

/// The hour of the day, 0 to 23, in which a stored session started.
pub open spec fn start_hour(stored: StoredSessionModel) -> u8 {
    hour_of(stored.session.started_at) as u8
}

/// The active time of the sessions of a log, added up under the hour of the
/// day in which each started. An hour in which none started has no key.
pub open spec fn hourly_of(log: Seq<StoredSessionModel>) -> Map<u8, u64>
    decreases log.len(),
{
    if log.len() == 0 {
        Map::empty()
    } else {
        let earlier = hourly_of(log.drop_last());
        let hour = start_hour(log.last());
        earlier.insert(hour, (hour_time(earlier, hour) + log.last().session.active_time_ms) as u64)
    }
}

/// No hour's sum leaves `u64` at any point of the log.
pub open spec fn hourly_fits(log: Seq<StoredSessionModel>) -> bool
    decreases log.len(),
{
    if log.len() == 0 {
        true
    } else {
        &&& hourly_fits(log.drop_last())
        &&& hour_time(hourly_of(log.drop_last()), start_hour(log.last()))
            + log.last().session.active_time_ms <= u64::MAX
    }
}

/// The sums of a log fit if those of the whole log do.
pub proof fn lemma_hourly_fits_prefix(log: Seq<StoredSessionModel>, n: int)
    requires
        hourly_fits(log),
        0 <= n <= log.len(),
    ensures
        hourly_fits(log.take(n)),
    decreases log.len() - n,
{
    if n == log.len() {
        assert(log.take(n) =~= log);
    } else {
        lemma_hourly_fits_prefix(log, n + 1);
        assert(log.take(n + 1).drop_last() =~= log.take(n));
    }
}

/// Decides [`hourly_fits`].
pub fn hours_fit(profile: &GrowthProfile) -> (fits: bool)
    ensures
        fits == hourly_fits(profile@.sessions),
{
    broadcast use vstd::std_specs::hash::group_hash_axioms;

    let ghost log = profile@.sessions;
    let mut hourly: HashMap<u8, u64> = HashMap::new();
    let mut i: usize = 0;
    proof {
        assert(log.take(0) =~= Seq::<StoredSessionModel>::empty());
    }
    while i < profile.sessions.len()
        invariant
            i <= profile.sessions@.len(),
            log == profile@.sessions,
            hourly_fits(log.take(i as int)),
            hourly@ == hourly_of(log.take(i as int)),
        decreases profile.sessions@.len() - i,
    {
        let session = &profile.sessions[i].session;
        let hour = hour_number(session.started_at);
        proof {
            assert(log.take(i + 1).drop_last() =~= log.take(i as int));
            assert(log.take(i + 1).last() == log[i as int]);
        }
        let before: u64 = match hourly.get(&hour) {
            Some(time) => *time,
            None => 0,
        };
        if before > u64::MAX - session.active_time_ms {
            proof {
                assert(!hourly_fits(log.take(i + 1)));
                if hourly_fits(log) {
                    lemma_hourly_fits_prefix(log, i + 1);
                }
            }
            return false;
        }
        hourly.insert(hour, before + session.active_time_ms);
        i += 1;
    }
    proof {
        assert(log.take(i as int) =~= log);
    }
    true
}

/// Active time by the hour of the day in which each session started.
pub fn generate_hourly_distribution(profile: &GrowthProfile) -> (hourly: HashMap<u8, u64>)
    requires
        hourly_fits(profile@.sessions),
    ensures
        hourly@ == hourly_of(profile@.sessions),
{
    broadcast use vstd::std_specs::hash::group_hash_axioms;

    let ghost log = profile@.sessions;
    let mut hourly: HashMap<u8, u64> = HashMap::new();
    let mut i: usize = 0;
    proof {
        assert(log.take(0) =~= Seq::<StoredSessionModel>::empty());
    }
    while i < profile.sessions.len()
        invariant
            i <= profile.sessions@.len(),
            log == profile@.sessions,
            hourly_fits(log),
            hourly@ == hourly_of(log.take(i as int)),
        decreases profile.sessions@.len() - i,
    {
        let session = &profile.sessions[i].session;
        let hour = hour_number(session.started_at);
        proof {
            assert(log.take(i + 1).drop_last() =~= log.take(i as int));
            assert(log.take(i + 1).last() == log[i as int]);
            lemma_hourly_fits_prefix(log, i + 1);
        }
        let before: u64 = match hourly.get(&hour) {
            Some(time) => *time,
            None => 0,
        };
        hourly.insert(hour, before + session.active_time_ms);
        i += 1;
    }
    proof {
        assert(log.take(i as int) =~= log);
    }
    hourly
}

/// One language of the breakdown.
pub struct LanguageStat {
    pub language: String,
    pub time_ms: u64,
    /// Always 0: files are not counted by language.
    pub files_count: u32,
    pub color: String,
}

/// What a [`LanguageStat`] holds, as plain mathematical values.
pub struct LanguageStatModel {
    pub language: Seq<char>,
    pub time_ms: u64,
    pub files_count: u32,
    pub color: Seq<char>,
}

impl View for LanguageStat {
    type V = LanguageStatModel;

    open spec fn view(&self) -> LanguageStatModel {
        LanguageStatModel {
            language: self.language@,
            time_ms: self.time_ms,
            files_count: self.files_count,
            color: self.color@,
        }
    }
}

/// The language statistics of a list, each as its model.
pub open spec fn stat_models(list: Seq<LanguageStat>) -> Seq<LanguageStatModel> {
    Seq::new(list.len(), |i: int| list[i]@)
}

/// The statistics of the language `name` with `time_ms` to its credit.
pub open spec fn stat_of(name: Seq<char>, time_ms: u64) -> LanguageStatModel {
    LanguageStatModel {
        language: name,
        time_ms,
        files_count: 0,
        color: color_of(lowercase_of(name)),
    }
}

/// No language of the table has any time to its credit.
pub open spec fn no_time(times: Map<Seq<char>, u64>) -> bool {
    forall|name: Seq<char>| #[trigger] times.contains_key(name) ==> times[name] == 0
}

/// Every entry in `stats` is the statistics of a language of `times`.
pub open spec fn drawn_from(stats: Seq<LanguageStatModel>, times: Map<Seq<char>, u64>) -> bool {
    forall|i: int|
        0 <= i < stats.len() ==> times.contains_key((#[trigger] stats[i]).language) && stats[i]
            == stat_of(stats[i].language, times[stats[i].language])
}

/// Some entry of `stats` is for the language `name`.
pub open spec fn has_stat(stats: Seq<LanguageStatModel>, name: Seq<char>) -> bool {
    exists|j: int| 0 <= j < stats.len() && (#[trigger] stats[j]).language == name
}

/// Every language of `times` has an entry in `stats`.
pub open spec fn covers_all(stats: Seq<LanguageStatModel>, times: Map<Seq<char>, u64>) -> bool {
    forall|name: Seq<char>| #[trigger] times.contains_key(name) ==> has_stat(stats, name)
}

/// The entries stand in rank: each has more time than every later one, or
/// the same time and a name that comes first; and no language stands twice.
pub open spec fn ranked(stats: Seq<LanguageStatModel>) -> bool {
    forall|i: int, j: int|
        0 <= i < j < stats.len() ==> outranks(
            (#[trigger] stats[i]).language,
            stats[i].time_ms,
            (#[trigger] stats[j]).language,
            stats[j].time_ms,
        ) && stats[i].language != stats[j].language
}

/// `stats` is the breakdown of `times`: empty where no language has any
/// time, and otherwise one entry for each language, in rank.
pub open spec fn is_breakdown(stats: Seq<LanguageStatModel>, times: Map<Seq<char>, u64>) -> bool {
    if no_time(times) {
        stats.len() == 0
    } else {
        drawn_from(stats, times) && covers_all(stats, times) && ranked(stats)
    }
}

/// Two languages that outrank each other are one language.
pub proof fn lemma_outranks_antisymmetric(a: Seq<char>, a_time: u64, b: Seq<char>, b_time: u64)
    requires
        outranks(a, a_time, b, b_time),
        outranks(b, b_time, a, a_time),
    ensures
        a == b,
{
    lemma_name_le_antisymmetric(a, b);
}

/// Entries in rank are fixed by their languages: two sequences in rank that
/// hold the same languages, with the same entry for each, are one sequence.
pub proof fn lemma_ranked_unique(a: Seq<LanguageStatModel>, b: Seq<LanguageStatModel>)
    requires
        ranked(a),
        ranked(b),
        forall|name: Seq<char>| has_stat(a, name) <==> has_stat(b, name),
        forall|i: int, j: int|
            0 <= i < a.len() && 0 <= j < b.len() && (#[trigger] a[i]).language == (
            #[trigger] b[j]).language ==> a[i] == b[j],
    ensures
        a == b,
    decreases a.len(),
{
    if a.len() == 0 {
        if b.len() > 0 {
            assert(has_stat(b, b[0].language));
            assert(has_stat(a, b[0].language));
        }
        assert(a =~= b);
    } else {
        assert(has_stat(a, a[0].language));
        assert(has_stat(b, a[0].language));
        let j = choose|j: int| 0 <= j < b.len() && (#[trigger] b[j]).language == a[0].language;
        assert(a[0] == b[j]);
        if j > 0 {
            assert(has_stat(b, b[0].language));
            assert(has_stat(a, b[0].language));
            let i = choose|i: int| 0 <= i < a.len() && (#[trigger] a[i]).language == b[0].language;
            assert(a[i] == b[0]);
            assert(b[0].language != b[j].language);
            assert(i > 0);
            assert(outranks(a[0].language, a[0].time_ms, a[i].language, a[i].time_ms));
            assert(outranks(b[0].language, b[0].time_ms, b[j].language, b[j].time_ms));
            lemma_outranks_antisymmetric(
                a[0].language,
                a[0].time_ms,
                b[0].language,
                b[0].time_ms,
            );
        }
        let a_rest = a.drop_first();
        let b_rest = b.drop_first();
        assert forall|i: int, k: int| 0 <= i < k < a_rest.len() implies outranks(
            (#[trigger] a_rest[i]).language,
            a_rest[i].time_ms,
            (#[trigger] a_rest[k]).language,
            a_rest[k].time_ms,
        ) && a_rest[i].language != a_rest[k].language by {
            assert(a_rest[i] == a[i + 1] && a_rest[k] == a[k + 1]);
        }
        assert forall|i: int, k: int| 0 <= i < k < b_rest.len() implies outranks(
            (#[trigger] b_rest[i]).language,
            b_rest[i].time_ms,
            (#[trigger] b_rest[k]).language,
            b_rest[k].time_ms,
        ) && b_rest[i].language != b_rest[k].language by {
            assert(b_rest[i] == b[i + 1] && b_rest[k] == b[k + 1]);
        }
        assert forall|name: Seq<char>| has_stat(a_rest, name) <==> has_stat(b_rest, name) by {
            if has_stat(a_rest, name) {
                let i = choose|i: int|
                    0 <= i < a_rest.len() && (#[trigger] a_rest[i]).language == name;
                assert(a[i + 1].language == name);
                assert(a[0].language != a[i + 1].language);
                assert(has_stat(a, name));
                let k = choose|k: int| 0 <= k < b.len() && (#[trigger] b[k]).language == name;
                assert(b_rest[k - 1].language == name);
            }
            if has_stat(b_rest, name) {
                let i = choose|i: int|
                    0 <= i < b_rest.len() && (#[trigger] b_rest[i]).language == name;
                assert(b[i + 1].language == name);
                assert(b[0].language != b[i + 1].language);
                assert(has_stat(b, name));
                let k = choose|k: int| 0 <= k < a.len() && (#[trigger] a[k]).language == name;
                assert(a_rest[k - 1].language == name);
            }
        }
        assert forall|i: int, k: int|
            0 <= i < a_rest.len() && 0 <= k < b_rest.len() && (#[trigger] a_rest[i]).language == (
            #[trigger] b_rest[k]).language implies a_rest[i] == b_rest[k] by {
            assert(a_rest[i] == a[i + 1] && b_rest[k] == b[k + 1]);
        }
        lemma_ranked_unique(a_rest, b_rest);
        assert(a =~= seq![a[0]] + a_rest);
        assert(b =~= seq![b[0]] + b_rest);
    }
}

/// A table has one breakdown only.
pub proof fn lemma_breakdown_unique(
    a: Seq<LanguageStatModel>,
    b: Seq<LanguageStatModel>,
    times: Map<Seq<char>, u64>,
)
    requires
        is_breakdown(a, times),
        is_breakdown(b, times),
    ensures
        a == b,
{
    if no_time(times) {
        assert(a =~= b);
    } else {
        assert forall|name: Seq<char>| has_stat(a, name) <==> has_stat(b, name) by {
            if has_stat(a, name) {
                let i = choose|i: int| 0 <= i < a.len() && (#[trigger] a[i]).language == name;
                assert(times.contains_key(a[i].language));
            }
            if has_stat(b, name) {
                let i = choose|i: int| 0 <= i < b.len() && (#[trigger] b[i]).language == name;
                assert(times.contains_key(b[i].language));
            }
        }
        lemma_ranked_unique(a, b);
    }
}

/// Ranking is transitive.
pub proof fn lemma_outranks_transitive(
    a: Seq<char>,
    a_time: u64,
    b: Seq<char>,
    b_time: u64,
    c: Seq<char>,
    c_time: u64,
)
    requires
        outranks(a, a_time, b, b_time),
        outranks(b, b_time, c, c_time),
    ensures
        outranks(a, a_time, c, c_time),
{
    if a_time == b_time && b_time == c_time {
        lemma_name_le_transitive(a, b, c);
    }
}

/// The languages of `stats` are those of the first `n` of `entries`.
pub open spec fn same_languages(
    stats: Seq<LanguageStatModel>,
    entries: Seq<LanguageTime>,
    n: int,
) -> bool {
    &&& forall|k: int| 0 <= k < n ==> has_stat(stats, (#[trigger] entries[k]).language@)
    &&& forall|j: int|
        0 <= j < stats.len() ==> holds_name(entries.take(n), (#[trigger] stats[j]).language)
}

/// Where the entry before a place outranks a newcomer, every entry before
/// that place does.
pub proof fn lemma_rank_above(stats: Seq<LanguageStatModel>, at: int, stat: LanguageStatModel)
    requires
        ranked(stats),
        0 < at <= stats.len(),
        outranks(stats[at - 1].language, stats[at - 1].time_ms, stat.language, stat.time_ms),
    ensures
        forall|j: int|
            0 <= j < at ==> outranks(
                (#[trigger] stats[j]).language,
                stats[j].time_ms,
                stat.language,
                stat.time_ms,
            ),
{
    assert forall|j: int| 0 <= j < at implies outranks(
        (#[trigger] stats[j]).language,
        stats[j].time_ms,
        stat.language,
        stat.time_ms,
    ) by {
        if j < at - 1 {
            assert(outranks(
                stats[j].language,
                stats[j].time_ms,
                stats[at - 1].language,
                stats[at - 1].time_ms,
            ));
            lemma_outranks_transitive(
                stats[j].language,
                stats[j].time_ms,
                stats[at - 1].language,
                stats[at - 1].time_ms,
                stat.language,
                stat.time_ms,
            );
        }
    }
}

/// Putting a new language at its place keeps the entries in rank.
pub proof fn lemma_insert_keeps_rank(
    stats: Seq<LanguageStatModel>,
    at: int,
    stat: LanguageStatModel,
)
    requires
        ranked(stats),
        0 <= at <= stats.len(),
        !has_stat(stats, stat.language),
        forall|j: int|
            0 <= j < at ==> outranks(
                (#[trigger] stats[j]).language,
                stats[j].time_ms,
                stat.language,
                stat.time_ms,
            ),
        forall|j: int|
            at <= j < stats.len() ==> outranks(
                stat.language,
                stat.time_ms,
                (#[trigger] stats[j]).language,
                stats[j].time_ms,
            ),
    ensures
        ranked(stats.insert(at, stat)),
{
    let after = stats.insert(at, stat);
    assert forall|a: int, b: int| 0 <= a < b < after.len() implies outranks(
        (#[trigger] after[a]).language,
        after[a].time_ms,
        (#[trigger] after[b]).language,
        after[b].time_ms,
    ) && after[a].language != after[b].language by {
        if a < at && b < at {
            assert(after[a] == stats[a] && after[b] == stats[b]);
        } else if a < at && b > at {
            assert(after[a] == stats[a] && after[b] == stats[b - 1]);
        } else if a > at {
            assert(after[a] == stats[a - 1] && after[b] == stats[b - 1]);
        } else if a == at {
            assert(after[b] == stats[b - 1]);
        } else {
            assert(after[a] == stats[a]);
        }
    }
}

/// Putting the next entry's language anywhere keeps the languages those of
/// the entries read so far.
pub proof fn lemma_insert_keeps_languages(
    stats: Seq<LanguageStatModel>,
    at: int,
    stat: LanguageStatModel,
    entries: Seq<LanguageTime>,
    n: int,
)
    requires
        same_languages(stats, entries, n),
        0 <= at <= stats.len(),
        0 <= n < entries.len(),
        stat.language == entries[n].language@,
    ensures
        same_languages(stats.insert(at, stat), entries, n + 1),
{
    let after = stats.insert(at, stat);
    assert forall|k: int| 0 <= k < n + 1 implies has_stat(
        after,
        (#[trigger] entries[k]).language@,
    ) by {
        if k < n {
            let j = choose|j: int|
                0 <= j < stats.len() && (#[trigger] stats[j]).language == entries[k].language@;
            let moved = if j < at {
                j
            } else {
                j + 1
            };
            assert(after[moved] == stats[j]);
        } else {
            assert(after[at] == stat);
        }
    }
    assert forall|j: int| 0 <= j < after.len() implies holds_name(
        entries.take(n + 1),
        (#[trigger] after[j]).language,
    ) by {
        if j == at {
            assert(entries.take(n + 1)[n].language@ == after[j].language);
        } else {
            let back = if j < at {
                j
            } else {
                j - 1
            };
            assert(after[j] == stats[back]);
            let k = choose|k: int|
                0 <= k < entries.take(n).len() && (#[trigger] entries.take(n)[k]).language@
                    == stats[back].language;
            assert(entries.take(n + 1)[k].language@ == after[j].language);
        }
    }
}

/// A language that stands later in the table has no entry yet.
pub proof fn lemma_next_language_is_new(
    stats: Seq<LanguageStatModel>,
    entries: Seq<LanguageTime>,
    n: int,
)
    requires
        same_languages(stats, entries, n),
        names_distinct(entries),
        0 <= n < entries.len(),
    ensures
        !has_stat(stats, entries[n].language@),
{
    if has_stat(stats, entries[n].language@) {
        let j = choose|j: int|
            0 <= j < stats.len() && (#[trigger] stats[j]).language == entries[n].language@;
        let k = choose|k: int|
            0 <= k < entries.take(n).len() && (#[trigger] entries.take(n)[k]).language@
                == stats[j].language;
        assert(entries[k].language@ != entries[n].language@);
    }
}

/// Whether the first of two languages, each with its time, stands before
/// the second in rank.
fn stands_before(name: &String, time_ms: u64, other: &String, other_time_ms: u64) -> (first: bool)
    ensures
        first == outranks(name@, time_ms, other@, other_time_ms),
{
    time_ms > other_time_ms || (time_ms == other_time_ms && name_precedes(
        name.as_str(),
        other.as_str(),
    ))
}

/// Whether any language of a table has time to its credit.
fn any_time(entries: &Vec<LanguageTime>) -> (any: bool)
    requires
        names_distinct(entries@),
    ensures
        any == !no_time(times_of(entries@)),
{
    let mut i: usize = 0;
    while i < entries.len()
        invariant
            i <= entries@.len(),
            names_distinct(entries@),
            forall|k: int| 0 <= k < i ==> (#[trigger] entries@[k]).time_ms == 0,
        decreases entries@.len() - i,
    {
        if entries[i].time_ms > 0 {
            proof {
                lemma_entry_in_map(entries@, i as int);
                assert(times_of(entries@).contains_key(entries@[i as int].language@));
            }
            return true;
        }
        i += 1;
    }
    proof {
        assert forall|name: Seq<char>| #[trigger]
            times_of(entries@).contains_key(name) implies times_of(entries@)[name] == 0 by {
            let p = place_of(entries@, name);
            lemma_entry_in_map(entries@, p);
        }
    }
    false
}

/// The languages of the profile by the time spent in each, the most used
/// first. Of two languages with the same time, the one whose name comes
/// first stands first.
pub fn generate_language_breakdown(profile: &GrowthProfile) -> (stats: Vec<LanguageStat>)
    requires
        profile.lifetime_stats.wf(),
    ensures
        is_breakdown(stat_models(stats@), profile@.lifetime_stats.languages),
{
    let entries = &profile.lifetime_stats.languages.entries;
    let ghost times = profile@.lifetime_stats.languages;
    let mut stats: Vec<LanguageStat> = Vec::new();
    if !any_time(entries) {
        return stats;
    }
    let mut i: usize = 0;
    proof {
        assert(entries@.take(0) =~= Seq::<LanguageTime>::empty());
    }
    while i < entries.len()
        invariant
            i <= entries@.len(),
            names_distinct(entries@),
            times == times_of(entries@),
            drawn_from(stat_models(stats@), times),
            ranked(stat_models(stats@)),
            same_languages(stat_models(stats@), entries@, i as int),
        decreases entries@.len() - i,
    {
        let entry = &entries[i];
        let ghost before = stat_models(stats@);
        let stat = LanguageStat {
            language: entry.language.clone(),
            time_ms: entry.time_ms,
            files_count: 0,
            color: get_language_color(entry.language.as_str()),
        };
        let mut at: usize = stats.len();
        while at > 0 && stands_before(
            &stat.language,
            stat.time_ms,
            &stats[at - 1].language,
            stats[at - 1].time_ms,
        )
            invariant
                at <= stats@.len(),
                before == stat_models(stats@),
                forall|k: int|
                    at <= k < stats@.len() ==> outranks(
                        stat@.language,
                        stat@.time_ms,
                        (#[trigger] before[k]).language,
                        before[k].time_ms,
                    ),
            decreases at,
        {
            at -= 1;
        }
        proof {
            lemma_entry_in_map(entries@, i as int);
            lemma_next_language_is_new(before, entries@, i as int);
            if at > 0 {
                lemma_name_le_total(stat@.language, before[at - 1].language);
                lemma_rank_above(before, at as int, stat@);
            }
            lemma_insert_keeps_rank(before, at as int, stat@);
            lemma_insert_keeps_languages(before, at as int, stat@, entries@, i as int);
            assert(stat_models(stats@.insert(at as int, stat)) =~= before.insert(at as int, stat@));
            assert(drawn_from(before.insert(at as int, stat@), times)) by {
                let after = before.insert(at as int, stat@);
                assert forall|j: int| 0 <= j < after.len() implies times.contains_key(
                    (#[trigger] after[j]).language,
                ) && after[j] == stat_of(after[j].language, times[after[j].language]) by {
                    if j < at {
                        assert(after[j] == before[j]);
                    } else if j > at {
                        assert(after[j] == before[j - 1]);
                    }
                }
            }
        }
        stats.insert(at, stat);
        i += 1;
    }
    proof {
        let all = stat_models(stats@);
        assert(entries@.take(i as int) =~= entries@);
        assert forall|name: Seq<char>| #[trigger] times.contains_key(name) implies has_stat(
            all,
            name,
        ) by {
            let p = place_of(entries@, name);
            assert(has_stat(all, entries@[p].language@));
        }
    }
    stats
}

/// The rollup's day is one of the last `days` days before `today`, or
/// `today` itself.
pub open spec fn is_recent(aggregate: DailyAggregateModel, days: u32, today: i64) -> bool {
    today - days <= aggregate.date <= today
}

/// The rollups of a sequence that are recent, in their order.
pub open spec fn recent_of(aggregates: Seq<DailyAggregateModel>, days: u32, today: i64) -> Seq<
    DailyAggregateModel,
>
    decreases aggregates.len(),
{
    if aggregates.len() == 0 {
        Seq::empty()
    } else if is_recent(aggregates.last(), days, today) {
        recent_of(aggregates.drop_last(), days, today).push(aggregates.last())
    } else {
        recent_of(aggregates.drop_last(), days, today)
    }
}

/// The rollups that a list of references points to, each as its model.
pub open spec fn pointed_models(list: Seq<&DailyAggregate>) -> Seq<DailyAggregateModel> {
    Seq::new(list.len(), |i: int| list[i]@)
}

/// The rollups of the last `days` days up to the day `today`, in the order
/// in which the profile holds them.
pub fn get_daily_aggregates_at(profile: &GrowthProfile, days: u32, today: i64) -> (recent: Vec<
    &DailyAggregate,
>)
    ensures
        pointed_models(recent@) == recent_of(profile@.daily_aggregates, days, today),
{
    let ghost aggregates = profile@.daily_aggregates;
    let start: i128 = today as i128 - days as i128;
    let mut recent: Vec<&DailyAggregate> = Vec::new();
    let mut i: usize = 0;
    proof {
        assert(pointed_models(recent@) =~= recent_of(aggregates.take(0), days, today));
    }
    while i < profile.daily_aggregates.len()
        invariant
            i <= profile.daily_aggregates@.len(),
            aggregates == profile@.daily_aggregates,
            start == today - days,
            pointed_models(recent@) == recent_of(aggregates.take(i as int), days, today),
        decreases profile.daily_aggregates@.len() - i,
    {
        let daily = &profile.daily_aggregates[i];
        proof {
            assert(aggregates.take(i + 1).drop_last() =~= aggregates.take(i as int));
            assert(aggregates.take(i + 1).last() == aggregates[i as int]);
        }
        if daily.date as i128 >= start && daily.date <= today {
            let ghost before = pointed_models(recent@);
            recent.push(daily);
            proof {
                assert(pointed_models(recent@) =~= before.push(daily@));
            }
        }
        i += 1;
    }
    proof {
        assert(aggregates.take(i as int) =~= aggregates);
    }
    recent
}

/// The rollups of the last `days` days up to today.
pub fn get_daily_aggregates(profile: &GrowthProfile, days: u32) -> (recent: Vec<&DailyAggregate>)
    ensures
        exists|today: i64|
            pointed_models(recent@) == recent_of(profile@.daily_aggregates, days, today),
{
    let today = day_number(now_millis());
    get_daily_aggregates_at(profile, days, today)
}

} // verus!
