//! Procurement records and the projection shown in lists.

use crate::format::{currency_text, format_currency};
use crate::progress::{calculate_progress, days_between, days_until, progress_percent};
use vstd::prelude::*;

verus! {

/// A group-purchase campaign. Amounts are in hundredths of a ruble.
pub struct Procurement {
    pub id: i64,
    pub title: String,
    pub description: Option<String>,
    pub city: Option<String>,
    pub status: Option<String>,
    pub current_amount: Option<i64>,
    pub target_amount: Option<i64>,
    /// ISO-8601 text.
    pub deadline: Option<String>,
    pub participant_count: Option<i32>,
    pub category: Option<String>,
    pub organizer_name: Option<String>,
    /// ISO-8601 text.
    pub created_at: Option<String>,
}

/// A procurement with what a list shows of it worked out.
pub struct ProcessedProcurement {
    pub id: i64,
    pub title: String,
    pub description: Option<String>,
    pub city: Option<String>,
    pub status: Option<String>,
    pub current_amount: i64,
    pub target_amount: i64,
    pub participant_count: Option<i32>,
    pub category: Option<String>,
    pub organizer_name: Option<String>,
    pub created_at: Option<String>,
    /// The ISO-8601 text of the deadline.
    pub deadline: Option<String>,
    pub progress: i32,
    pub formatted_current: String,
    pub formatted_target: String,
    /// Present where the record has a deadline.
    pub days_left: Option<i32>,
}

/// The characters of an optional string, where there is one.
pub open spec fn optional_text(s: Option<String>) -> Option<Seq<char>> {
    match s {
        Some(t) => Some(t@),
        None => None,
    }
}

/// An amount; an absent one counts as zero.
pub open spec fn amount_or_zero(a: Option<i64>) -> int {
    match a {
        Some(v) => v as int,
        None => 0,
    }
}

impl Procurement {
    /// The money collected so far.
    pub open spec fn current(&self) -> int {
        amount_or_zero(self.current_amount)
    }

    /// The money aimed at.
    pub open spec fn target(&self) -> int {
        amount_or_zero(self.target_amount)
    }

    /// The number of participants; an absent one counts as zero.
    pub open spec fn participants(&self) -> int {
        match self.participant_count {
            Some(n) => n as int,
            None => 0,
        }
    }

    /// The days left at `now_ms`, where there is a deadline. `instant` is
    /// what the host reads from the deadline, in milliseconds since the
    /// Unix epoch; a deadline from which it reads nothing has no days left.
    pub open spec fn days_left(&self, instant: Option<i64>, now_ms: int) -> Option<int> {
        match self.deadline {
            Some(_) => Some(
                match instant {
                    Some(ms) => days_between(now_ms, ms as int),
                    None => 0,
                },
            ),
            None => None,
        }
    }
}

/// The entry of `instants` for record `i`; none where the list ends before.
pub open spec fn instant_at(instants: Seq<Option<i64>>, i: int) -> Option<i64> {
    if 0 <= i < instants.len() {
        instants[i]
    } else {
        None
    }
}

/// `shown` is the record `p` as a list shows it at `now_ms`, with `instant`
/// read from its deadline.
pub open spec fn is_projection_of(
    shown: ProcessedProcurement,
    p: Procurement,
    instant: Option<i64>,
    now_ms: int,
) -> bool {
    &&& shown.id == p.id
    &&& shown.title@ == p.title@
    &&& optional_text(shown.description) == optional_text(p.description)
    &&& optional_text(shown.city) == optional_text(p.city)
    &&& optional_text(shown.status) == optional_text(p.status)
    &&& shown.participant_count == p.participant_count
    &&& optional_text(shown.category) == optional_text(p.category)
    &&& optional_text(shown.organizer_name) == optional_text(p.organizer_name)
    &&& optional_text(shown.created_at) == optional_text(p.created_at)
    &&& optional_text(shown.deadline) == optional_text(p.deadline)
    &&& shown.current_amount == p.current()
    &&& shown.target_amount == p.target()
    &&& shown.progress == progress_percent(p.current(), p.target())
    &&& shown.formatted_current@ == currency_text(p.current())
    &&& shown.formatted_target@ == currency_text(p.target())
    &&& match p.days_left(instant, now_ms) {
        Some(days) => shown.days_left == Some(days as i32),
        None => shown.days_left is None,
    }
}

/// A copy of an optional string.
pub fn copy_text(s: &Option<String>) -> (copy: Option<String>)
    ensures
        optional_text(copy) == optional_text(*s),
{
    match s {
        Some(t) => Some(t.clone()),
        None => None,
    }
}

/// An amount; an absent one counts as zero.
pub fn amount_of(a: &Option<i64>) -> (amount: i64)
    ensures
        amount == amount_or_zero(*a),
{
    match a {
        Some(v) => *v,
        None => 0,
    }
}

fn project(p: &Procurement, instant: Option<i64>, now_ms: i64) -> (shown: ProcessedProcurement)
    ensures
        is_projection_of(shown, *p, instant, now_ms as int),
{
    let current = amount_of(&p.current_amount);
    let target = amount_of(&p.target_amount);
    let days_left = match &p.deadline {
        Some(_) => match instant {
            Some(ms) => Some(days_until(ms, now_ms)),
            None => Some(0),
        },
        None => None,
    };
    ProcessedProcurement {
        id: p.id,
        title: p.title.clone(),
        description: copy_text(&p.description),
        city: copy_text(&p.city),
        status: copy_text(&p.status),
        current_amount: current,
        target_amount: target,
        participant_count: p.participant_count,
        category: copy_text(&p.category),
        organizer_name: copy_text(&p.organizer_name),
        created_at: copy_text(&p.created_at),
        deadline: copy_text(&p.deadline),
        progress: calculate_progress(current, target),
        formatted_current: format_currency(current),
        formatted_target: format_currency(target),
        days_left,
    }
}

/// Works out, for every record in order, what a list shows of it: the
/// amounts with absent ones as zero, the progress in percent, the amounts
/// as text, and the days left where there is a deadline. All days left are
/// counted from the one instant `now_ms`. `deadline_instants` holds, record
/// by record, the instant that the host reads from the deadline, in
/// milliseconds since the Unix epoch, and `None` where it reads nothing.
pub fn batch_process_procurements(
    procurements: &Vec<Procurement>,
    deadline_instants: &Vec<Option<i64>>,
    now_ms: i64,
) -> (shown: Vec<ProcessedProcurement>)
    ensures
        shown.len() == procurements.len(),
        forall|i: int|
            0 <= i < procurements.len() ==> is_projection_of(
                #[trigger] shown[i],
                procurements[i],
                instant_at(deadline_instants@, i),
                now_ms as int,
            ),
{
    let mut shown: Vec<ProcessedProcurement> = Vec::new();
    let mut i: usize = 0;
    while i < procurements.len()
        invariant
            i <= procurements.len(),
            shown.len() == i,
            forall|k: int|
                0 <= k < i ==> is_projection_of(
                    #[trigger] shown[k],
                    procurements[k],
                    instant_at(deadline_instants@, k),
                    now_ms as int,
                ),
        decreases procurements.len() - i,
    {
        let instant: Option<i64> = if i < deadline_instants.len() {
            deadline_instants[i]
        } else {
            None
        };
        let one = project(&procurements[i], instant, now_ms);
        shown.push(one);
        i += 1;
    }
    shown
}

} // verus!
