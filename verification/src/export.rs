//! What an export shows of a profile: the choice of sessions and fields, and
//! the streak badge. Turning the chosen values into JSON, Markdown or a
//! drawing is left to the caller.

use vstd::prelude::*;
use crate::session::SessionModel;
use crate::storage::{
    aggregate_models, stored_models, DailyAggregate, GrowthProfile, GrowthProfileModel,
    StoredSession, StoredSessionModel,
};

verus! {

/// The forms in which a profile can be exported.
#[derive(Clone, Copy, Debug, PartialEq, Eq, Structural)]
pub enum ExportFormat {
    Json,
    Markdown,
    SvgHeatmap,
    BadgeSvg,
    BadgeUrl,
}

/// What an export is to contain.
#[derive(Clone, Copy, Debug)]
pub struct ExportOptions {
    pub format: ExportFormat,
    /// If set, only sessions that started between the two instants, both
    /// included, are exported.
    pub date_range: Option<(i64, i64)>,
    pub include_commits: bool,
    pub include_files: bool,
}

impl Default for ExportOptions {
    fn default() -> (options: Self)
        ensures
            options == (ExportOptions {
                format: ExportFormat::Json,
                date_range: None,
                include_commits: true,
                include_files: true,
            }),
    {
        ExportOptions {
            format: ExportFormat::Json,
            date_range: None,
            include_commits: true,
            include_files: true,
        }
    }
}

/// The session started within the range of the options, or the options set
/// no range.
pub open spec fn is_selected(stored: StoredSessionModel, options: ExportOptions) -> bool {
    match options.date_range {
        Some(range) => range.0 <= stored.session.started_at <= range.1,
        None => true,
    }
}

/// The stored session as the options show it: without its commits, without
/// its files, or without both, where the options leave them out. The frozen
/// figures stay as they were.
pub open spec fn trimmed(stored: StoredSessionModel, options: ExportOptions) -> StoredSessionModel {
    StoredSessionModel {
        session: SessionModel {
            commits: if options.include_commits {
                stored.session.commits
            } else {
                Seq::empty()
            },
            files_edited: if options.include_files {
                stored.session.files_edited
            } else {
                Seq::empty()
            },
            ..stored.session
        },
        computed_stats: stored.computed_stats,
    }
}

/// The sessions of a log that the options select, each trimmed, in the order
/// of the log.
pub open spec fn selected_log(log: Seq<StoredSessionModel>, options: ExportOptions) -> Seq<
    StoredSessionModel,
>
    decreases log.len(),
{
    if log.len() == 0 {
        Seq::empty()
    } else if is_selected(log.last(), options) {
        selected_log(log.drop_last(), options).push(trimmed(log.last(), options))
    } else {
        selected_log(log.drop_last(), options)
    }
}

/// The profile as an export with these options shows it: the selected
/// sessions, and everything else as it is. The rollups and the totals are
/// those of the whole profile, whatever the selection.
pub open spec fn selection_of(profile: GrowthProfileModel, options: ExportOptions) -> GrowthProfileModel {
    GrowthProfileModel { sessions: selected_log(profile.sessions, options), ..profile }
}

/// A copy of `stored` as the options show it.
fn trim(stored: &StoredSession, options: &ExportOptions) -> (copy: StoredSession)
    ensures
        copy@ == trimmed(stored@, *options),
{
    let mut copy = stored.clone();
    if !options.include_commits {
        copy.session.commits = Vec::new();
        proof {
            assert(copy@.session.commits =~= Seq::empty());
        }
    }
    if !options.include_files {
        copy.session.files_edited = Vec::new();
        proof {
            assert(copy@.session.files_edited =~= Seq::empty());
        }
    }
    copy
}

/// A copy of a list of rollups.
fn clone_aggregates(list: &Vec<DailyAggregate>) -> (copy: Vec<DailyAggregate>)
    ensures
        aggregate_models(copy@) == aggregate_models(list@),
        copy@.len() == list@.len(),
        forall|i: int| 0 <= i < list@.len() ==> (#[trigger] copy@[i]).wf() == list@[i].wf(),
{
    let mut copy: Vec<DailyAggregate> = Vec::new();
    let mut i: usize = 0;
    while i < list.len()
        invariant
            i <= list@.len(),
            copy@.len() == i,
            forall|k: int| 0 <= k < i ==> (#[trigger] copy@[k])@ == list@[k]@,
            forall|k: int| 0 <= k < i ==> (#[trigger] copy@[k]).wf() == list@[k].wf(),
        decreases list@.len() - i,
    {
        copy.push(list[i].clone());
        i += 1;
    }
    proof {
        assert(aggregate_models(copy@) =~= aggregate_models(list@));
    }
    copy
}

/// The copy of the profile that an export with these options writes out.
pub fn select_for_export(profile: &GrowthProfile, options: &ExportOptions) -> (selection:
    GrowthProfile)
    ensures
        selection@ == selection_of(profile@, *options),
        profile.wf() ==> selection.wf(),
{
    let ghost log = profile@.sessions;
    let mut sessions: Vec<StoredSession> = Vec::new();
    let mut i: usize = 0;
    proof {
        assert(stored_models(sessions@) =~= selected_log(log.take(0), *options));
    }
    while i < profile.sessions.len()
        invariant
            i <= profile.sessions@.len(),
            log == profile@.sessions,
            stored_models(sessions@) == selected_log(log.take(i as int), *options),
        decreases profile.sessions@.len() - i,
    {
        let stored = &profile.sessions[i];
        proof {
            assert(log.take(i + 1).drop_last() =~= log.take(i as int));
            assert(log.take(i + 1).last() == log[i as int]);
        }
        let keep = match options.date_range {
            Some(range) => stored.session.started_at >= range.0 && stored.session.started_at
                <= range.1,
            None => true,
        };
        if keep {
            let ghost before = stored_models(sessions@);
            let copy = trim(stored, options);
            sessions.push(copy);
            proof {
                assert(stored_models(sessions@) =~= before.push(trimmed(log[i as int], *options)));
            }
        }
        i += 1;
    }
    proof {
        assert(log.take(i as int) =~= log);
    }
    GrowthProfile {
        id: profile.id.clone(),
        created_at: profile.created_at,
        sessions,
        daily_aggregates: clone_aggregates(&profile.daily_aggregates),
        lifetime_stats: profile.lifetime_stats.clone(),
    }
}

/// The character that stands for the digit `digit`.
pub open spec fn digit_char(digit: nat) -> char {
    if digit == 0 {
        '0'
    } else if digit == 1 {
        '1'
    } else if digit == 2 {
        '2'
    } else if digit == 3 {
        '3'
    } else if digit == 4 {
        '4'
    } else if digit == 5 {
        '5'
    } else if digit == 6 {
        '6'
    } else if digit == 7 {
        '7'
    } else if digit == 8 {
        '8'
    } else {
        '9'
    }
}

/// The number `n` written in decimal, without leading zeros.
pub open spec fn digits_of(n: nat) -> Seq<char>
    decreases n,
{
    if n < 10 {
        seq![digit_char(n)]
    } else {
        digits_of(n / 10).push(digit_char(n % 10))
    }
}

/// The text of one digit.
fn digit_text(digit: u32) -> (text: &'static str)
    requires
        digit < 10,
    ensures
        text@ == seq![digit_char(digit as nat)],
{
    proof {
        reveal_strlit("0");
        reveal_strlit("1");
        reveal_strlit("2");
        reveal_strlit("3");
        reveal_strlit("4");
        reveal_strlit("5");
        reveal_strlit("6");
        reveal_strlit("7");
        reveal_strlit("8");
        reveal_strlit("9");
    }
    let text = if digit == 0 {
        "0"
    } else if digit == 1 {
        "1"
    } else if digit == 2 {
        "2"
    } else if digit == 3 {
        "3"
    } else if digit == 4 {
        "4"
    } else if digit == 5 {
        "5"
    } else if digit == 6 {
        "6"
    } else if digit == 7 {
        "7"
    } else if digit == 8 {
        "8"
    } else {
        "9"
    };
    proof {
        assert(text@ =~= seq![digit_char(digit as nat)]);
    }
    text
}

/// Writes `n` in decimal.
pub fn decimal(n: u32) -> (text: String)
    ensures
        text@ == digits_of(n as nat),
    decreases n,
{
    if n < 10 {
        digit_text(n).to_owned()
    } else {
        let mut text = decimal(n / 10);
        let last = digit_text(n % 10);
        text.append(last);
        proof {
            assert(text@ =~= digits_of((n / 10) as nat).push(digit_char((n % 10) as nat)));
        }
        text
    }
}

/// The address of the badge that shows a streak of `streak` days.
pub open spec fn badge_url_of(streak: u32) -> Seq<char> {
    "https://img.shields.io/badge/streak-"@ + digits_of(streak as nat) + "_days-brightgreen"@
}

/// The address of a badge that shows the current streak.
pub fn generate_badge_url(profile: &GrowthProfile) -> (url: String)
    ensures
        url@ == badge_url_of(profile@.lifetime_stats.current_streak),
{
    let mut url = "https://img.shields.io/badge/streak-".to_owned();
    let days = decimal(profile.lifetime_stats.current_streak);
    url.append(days.as_str());
    url.append("_days-brightgreen");
    url
}

/// The drawing of the badge up to the first place of the number of days.
pub open spec fn badge_head() -> Seq<char> {
    "<svg xmlns=\"http://www.w3.org/2000/svg\" width=\"120\" height=\"20\">\n<linearGradient id=\"b\" x2=\"0\" y2=\"100%\">\n<stop offset=\"0\" stop-color=\"#bbb\" stop-opacity=\".1\"/>\n<stop offset=\"1\" stop-opacity=\".1\"/>\n</linearGradient>\n<rect rx=\"3\" width=\"120\" height=\"20\" fill=\"#555\"/>\n<rect rx=\"3\" x=\"50\" width=\"70\" height=\"20\" fill=\"#4c1\"/>\n<path fill=\"#4c1\" d=\"M50 0h4v20h-4z\"/>\n<rect rx=\"3\" width=\"120\" height=\"20\" fill=\"url(#b)\"/>\n<g fill=\"#fff\" text-anchor=\"middle\" font-family=\"DejaVu Sans,Verdana,Geneva,sans-serif\" font-size=\"11\">\n<text x=\"25\" y=\"15\" fill=\"#010101\" fill-opacity=\".3\">streak</text>\n<text x=\"25\" y=\"14\">streak</text>\n<text x=\"85\" y=\"15\" fill=\"#010101\" fill-opacity=\".3\">"@
}

/// The drawing of the badge between the two places of the number of days.
pub open spec fn badge_middle() -> Seq<char> {
    " days</text>\n<text x=\"85\" y=\"14\">"@
}

/// The drawing of the badge after the second place of the number of days.
pub open spec fn badge_tail() -> Seq<char> {
    " days</text>\n</g>\n</svg>"@
}

/// The drawing of the badge that shows a streak of `streak` days: a label,
/// and the number of days written twice, once as a shadow.
pub open spec fn badge_svg_of(streak: u32) -> Seq<char> {
    badge_head() + digits_of(streak as nat) + badge_middle() + digits_of(streak as nat)
        + badge_tail()
}

/// The drawing of a badge that shows the current streak.
pub fn generate_badge_svg(profile: &GrowthProfile) -> (svg: String)
    ensures
        svg@ == badge_svg_of(profile@.lifetime_stats.current_streak),
{
    let mut svg = "<svg xmlns=\"http://www.w3.org/2000/svg\" width=\"120\" height=\"20\">\n<linearGradient id=\"b\" x2=\"0\" y2=\"100%\">\n<stop offset=\"0\" stop-color=\"#bbb\" stop-opacity=\".1\"/>\n<stop offset=\"1\" stop-opacity=\".1\"/>\n</linearGradient>\n<rect rx=\"3\" width=\"120\" height=\"20\" fill=\"#555\"/>\n<rect rx=\"3\" x=\"50\" width=\"70\" height=\"20\" fill=\"#4c1\"/>\n<path fill=\"#4c1\" d=\"M50 0h4v20h-4z\"/>\n<rect rx=\"3\" width=\"120\" height=\"20\" fill=\"url(#b)\"/>\n<g fill=\"#fff\" text-anchor=\"middle\" font-family=\"DejaVu Sans,Verdana,Geneva,sans-serif\" font-size=\"11\">\n<text x=\"25\" y=\"15\" fill=\"#010101\" fill-opacity=\".3\">streak</text>\n<text x=\"25\" y=\"14\">streak</text>\n<text x=\"85\" y=\"15\" fill=\"#010101\" fill-opacity=\".3\">".to_owned();
    let days = decimal(profile.lifetime_stats.current_streak);
    svg.append(days.as_str());
    svg.append(" days</text>\n<text x=\"85\" y=\"14\">");
    svg.append(days.as_str());
    svg.append(" days</text>\n</g>\n</svg>");
    svg
}

} // verus!
