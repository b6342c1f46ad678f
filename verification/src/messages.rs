//! Chat messages: the projection shown in a conversation and text search.

use crate::markup::{format_message_text, message_html};
use crate::text::{
    chars_blank, chars_contain, chars_eq, chars_of, contains, decimal, decimal_padded, is_blank,
    lowercase, lowercase_chars, push_decimal, push_decimal_padded, push_str, str_eq, str_or_empty, string_of,
    text_or_empty, texts_of,
};
use vstd::prelude::*;

verus! {

/// A moment as the host's clock shows it in its own time zone.
#[derive(Clone, Copy, Debug, PartialEq, Eq)]
pub struct LocalTime {
    pub year: u32,
    /// January is 0, December is 11.
    pub month: u32,
    /// Day of the month, from 1.
    pub day: u32,
    pub hours: u32,
    pub minutes: u32,
}

/// The author of a message.
#[derive(Debug)]
pub struct MessageUser {
    pub id: Option<i64>,
    pub first_name: Option<String>,
    pub last_name: Option<String>,
}

/// A chat message as it arrives. `created_at` is the sending time read on
/// the host's clock.
#[derive(Debug)]
pub struct Message {
    pub id: Option<i64>,
    pub text: Option<String>,
    pub user: Option<MessageUser>,
    pub message_type: Option<String>,
    pub created_at: Option<LocalTime>,
}

/// A message made ready for display.
#[derive(Debug)]
pub struct ProcessedMessage {
    pub id: Option<i64>,
    pub text: String,
    pub formatted_text: String,
    pub is_own: bool,
    pub is_system: bool,
    pub formatted_time: String,
    pub sender_name: String,
    /// The date heading to show above this message, where one is due.
    pub date_divider: Option<String>,
}

/// A message found by a search: its place in the list and its id.
#[derive(Clone, Copy, Debug, PartialEq, Eq)]
pub struct MessageHit {
    pub index: usize,
    pub id: Option<i64>,
}

impl Message {
    /// The body of the message.
    pub open spec fn body(&self) -> Seq<char> {
        text_or_empty(self.text)
    }

    /// A message of type `system`.
    pub open spec fn is_system(&self) -> bool {
        self.message_type matches Some(t) && t@ == "system"@
    }

    /// A message written by the user `current_user_id`.
    pub open spec fn is_own(&self, current_user_id: i64) -> bool {
        self.user matches Some(u) && u.id == Some(current_user_id)
    }

    /// The first name of the author; empty when there is none.
    pub open spec fn author_first_name(&self) -> Seq<char> {
        match self.user {
            Some(u) => text_or_empty(u.first_name),
            None => Seq::empty(),
        }
    }

    /// The name shown beside the message: the author's first name, but
    /// nothing on one's own messages and on system messages.
    pub open spec fn sender_name(&self, current_user_id: i64) -> Seq<char> {
        if !self.is_own(current_user_id) && !self.is_system() {
            self.author_first_name()
        } else {
            Seq::empty()
        }
    }

    /// The body as shown: system messages as they are, all others as HTML.
    pub open spec fn shown_text(&self) -> Seq<char> {
        if self.is_system() {
            self.body()
        } else {
            message_html(self.body())
        }
    }

    /// The time of day shown beside the message; empty without a sending time.
    pub open spec fn shown_time(&self) -> Seq<char> {
        match self.created_at {
            Some(at) => clock_text(at),
            None => Seq::empty(),
        }
    }
}

/// The name of a month in the genitive; empty for a month outside 0..11.
pub open spec fn month_name(month: int) -> Seq<char> {
    if month == 0 {
        "января"@
    } else if month == 1 {
        "февраля"@
    } else if month == 2 {
        "марта"@
    } else if month == 3 {
        "апреля"@
    } else if month == 4 {
        "мая"@
    } else if month == 5 {
        "июня"@
    } else if month == 6 {
        "июля"@
    } else if month == 7 {
        "августа"@
    } else if month == 8 {
        "сентября"@
    } else if month == 9 {
        "октября"@
    } else if month == 10 {
        "ноября"@
    } else if month == 11 {
        "декабря"@
    } else {
        Seq::empty()
    }
}

/// A date in Russian: day and month, and the year where it is not the
/// current one.
pub open spec fn ru_date(day: int, month: int, year: int, current_year: int) -> Seq<char> {
    if year != current_year {
        decimal(day) + " "@ + month_name(month) + " "@ + decimal(year)
    } else {
        decimal(day) + " "@ + month_name(month)
    }
}

/// Hours and minutes as `HH:MM`.
pub open spec fn clock_text(at: LocalTime) -> Seq<char> {
    decimal_padded(at.hours as nat) + ":"@ + decimal_padded(at.minutes as nat)
}

/// Two moments on the same calendar day.
pub open spec fn same_day(a: LocalTime, b: LocalTime) -> bool {
    a.year == b.year && a.month == b.month && a.day == b.day
}

/// The heading under which a message sent at `at` is filed: today,
/// yesterday, or its date; empty without a sending time.
pub open spec fn date_group(at: Option<LocalTime>, today: LocalTime, yesterday: LocalTime) -> Seq<
    char,
> {
    match at {
        Some(t) => if same_day(t, today) {
            "Сегодня"@
        } else if same_day(t, yesterday) {
            "Вчера"@
        } else {
            ru_date(t.day as int, t.month as int, t.year as int, today.year as int)
        },
        None => Seq::empty(),
    }
}

/// The heading last shown once the first `n` messages are out. A message
/// without a heading of its own leaves it as it was.
pub open spec fn last_heading(
    messages: Seq<Message>,
    n: int,
    today: LocalTime,
    yesterday: LocalTime,
) -> Seq<char>
    decreases n,
{
    if n <= 0 {
        Seq::empty()
    } else {
        let before = last_heading(messages, n - 1, today, yesterday);
        let group = date_group(messages[n - 1].created_at, today, yesterday);
        if group.len() > 0 && group != before {
            group
        } else {
            before
        }
    }
}

/// The heading due above message `i`: its date group where that differs from
/// the heading last shown.
pub open spec fn heading_above(
    messages: Seq<Message>,
    i: int,
    today: LocalTime,
    yesterday: LocalTime,
) -> Option<Seq<char>> {
    let group = date_group(messages[i].created_at, today, yesterday);
    if group.len() > 0 && group != last_heading(messages, i, today, yesterday) {
        Some(group)
    } else {
        None
    }
}

/// `shown` is message `i` of `messages` made ready for display.
pub open spec fn is_display_of(
    shown: ProcessedMessage,
    messages: Seq<Message>,
    i: int,
    current_user_id: i64,
    today: LocalTime,
    yesterday: LocalTime,
) -> bool {
    let m = messages[i];
    &&& shown.id == m.id
    &&& shown.text@ == m.body()
    &&& shown.formatted_text@ == m.shown_text()
    &&& shown.is_own == m.is_own(current_user_id)
    &&& shown.is_system == m.is_system()
    &&& shown.formatted_time@ == m.shown_time()
    &&& shown.sender_name@ == m.sender_name(current_user_id)
    &&& match heading_above(messages, i, today, yesterday) {
        Some(heading) => shown.date_divider matches Some(d) && d@ == heading,
        None => shown.date_divider is None,
    }
}

/// The hit for the message at position `at`.
pub open spec fn hit_at(messages: Seq<Message>, at: usize) -> MessageHit {
    MessageHit { index: at, id: messages[at as int].id }
}

/// The messages among the first `n` whose lowercased body holds `needle`,
/// in their order.
pub open spec fn matching_messages(messages: Seq<Message>, needle: Seq<char>, n: int) -> Seq<
    MessageHit,
>
    decreases n,
{
    if n <= 0 {
        Seq::empty()
    } else {
        let before = matching_messages(messages, needle, n - 1);
        let m = messages[n - 1];
        if contains(lowercase(m.body()), needle) {
            before.push(hit_at(messages, (n - 1) as usize))
        } else {
            before
        }
    }
}

fn month_chars(month: u32) -> (name: Vec<char>)
    ensures
        name@ == month_name(month as int),
{
    if month == 0 {
        chars_of("января")
    } else if month == 1 {
        chars_of("февраля")
    } else if month == 2 {
        chars_of("марта")
    } else if month == 3 {
        chars_of("апреля")
    } else if month == 4 {
        chars_of("мая")
    } else if month == 5 {
        chars_of("июня")
    } else if month == 6 {
        chars_of("июля")
    } else if month == 7 {
        chars_of("августа")
    } else if month == 8 {
        chars_of("сентября")
    } else if month == 9 {
        chars_of("октября")
    } else if month == 10 {
        chars_of("ноября")
    } else if month == 11 {
        chars_of("декабря")
    } else {
        Vec::new()
    }
}

fn ru_date_chars(day: u32, month: u32, year: u32, current_year: u32) -> (out: Vec<char>)
    ensures
        out@ == ru_date(day as int, month as int, year as int, current_year as int),
{
    let mut out: Vec<char> = Vec::new();
    push_decimal(&mut out, day as i128);
    push_str(&mut out, " ");
    let mut name = month_chars(month);
    out.append(&mut name);
    if year != current_year {
        push_str(&mut out, " ");
        push_decimal(&mut out, year as i128);
    }
    assert(out@ =~= ru_date(day as int, month as int, year as int, current_year as int));
    out
}

/// Writes a date in Russian, leaving the year out when it is the current one.
pub fn format_ru_date(day: u32, month: u32, year: u32, current_year: u32) -> (date: String)
    ensures
        date@ == ru_date(day as int, month as int, year as int, current_year as int),
{
    let out = ru_date_chars(day, month, year, current_year);
    string_of(&out)
}

fn same_day_exec(a: &LocalTime, b: &LocalTime) -> (same: bool)
    ensures
        same == same_day(*a, *b),
{
    a.year == b.year && a.month == b.month && a.day == b.day
}

fn date_group_chars(at: &Option<LocalTime>, today: &LocalTime, yesterday: &LocalTime) -> (out: Vec<
    char,
>)
    ensures
        out@ == date_group(*at, *today, *yesterday),
{
    match at {
        Some(t) => {
            if same_day_exec(t, today) {
                chars_of("Сегодня")
            } else if same_day_exec(t, yesterday) {
                chars_of("Вчера")
            } else {
                ru_date_chars(t.day, t.month, t.year, today.year)
            }
        },
        None => Vec::new(),
    }
}

fn clock_string(at: &LocalTime) -> (out: String)
    ensures
        out@ == clock_text(*at),
{
    let mut out: Vec<char> = Vec::new();
    push_decimal_padded(&mut out, at.hours);
    push_str(&mut out, ":");
    push_decimal_padded(&mut out, at.minutes);
    assert(out@ =~= clock_text(*at));
    string_of(&out)
}

fn message_is_system(m: &Message) -> (system: bool)
    ensures
        system == m.is_system(),
{
    match &m.message_type {
        Some(t) => str_eq(t.as_str(), "system"),
        None => false,
    }
}

fn message_is_own(m: &Message, current_user_id: i64) -> (own: bool)
    ensures
        own == m.is_own(current_user_id),
{
    match &m.user {
        Some(u) => match u.id {
            Some(id) => id == current_user_id,
            None => false,
        },
        None => false,
    }
}

fn author_first_name(m: &Message) -> (name: &str)
    ensures
        name@ == m.author_first_name(),
{
    match &m.user {
        Some(u) => str_or_empty(&u.first_name),
        None => {
            proof {
                reveal_strlit("");
            }
            assert(""@ =~= Seq::<char>::empty());
            ""
        },
    }
}

/// Makes a list of messages ready for display, in the order given. Each
/// message gets its text as HTML (system messages stay as they are), its
/// time of day, the sender's name where one is shown, and a date heading
/// wherever the day changes. `today` and `yesterday` are the host's
/// readings of now and of 24 hours ago.
pub fn batch_process_messages(
    messages: &Vec<Message>,
    current_user_id: i64,
    today: LocalTime,
    yesterday: LocalTime,
) -> (shown: Vec<ProcessedMessage>)
    ensures
        shown.len() == messages.len(),
        forall|i: int|
            0 <= i < messages.len() ==> is_display_of(
                #[trigger] shown[i],
                messages@,
                i,
                current_user_id,
                today,
                yesterday,
            ),
{
    let mut shown: Vec<ProcessedMessage> = Vec::new();
    let mut last: Vec<char> = Vec::new();
    let mut i: usize = 0;
    while i < messages.len()
        invariant
            i <= messages.len(),
            shown.len() == i,
            last@ == last_heading(messages@, i as int, today, yesterday),
            forall|k: int|
                0 <= k < i ==> is_display_of(
                    #[trigger] shown[k],
                    messages@,
                    k,
                    current_user_id,
                    today,
                    yesterday,
                ),
        decreases messages.len() - i,
    {
        let m = &messages[i];
        let text = str_or_empty(&m.text);
        let is_system = message_is_system(m);
        let is_own = message_is_own(m, current_user_id);
        let formatted_text = if is_system {
            text.to_owned()
        } else {
            format_message_text(text)
        };
        let group = date_group_chars(&m.created_at, &today, &yesterday);
        let show_divider = group.len() > 0 && !chars_eq(&group, &last);
        let date_divider = if show_divider {
            Some(string_of(&group))
        } else {
            None
        };
        if show_divider {
            last = group;
        }
        let formatted_time = match &m.created_at {
            Some(at) => clock_string(at),
            None => String::new(),
        };
        let sender_name = if !is_own && !is_system {
            author_first_name(m).to_owned()
        } else {
            String::new()
        };
        let one = ProcessedMessage {
            id: m.id,
            text: text.to_owned(),
            formatted_text,
            is_own,
            is_system,
            formatted_time,
            sender_name,
            date_divider,
        };
        assert(is_display_of(one, messages@, i as int, current_user_id, today, yesterday));
        shown.push(one);
        i += 1;
    }
    shown
}

/// The positions among the first `n` texts that hold `needle`, in order.
pub open spec fn positions_holding(texts: Seq<Seq<char>>, needle: Seq<char>, n: int) -> Seq<usize>
    decreases n,
{
    if n <= 0 {
        Seq::empty()
    } else {
        let before = positions_holding(texts, needle, n - 1);
        if contains(texts[n - 1], needle) {
            before.push((n - 1) as usize)
        } else {
            before
        }
    }
}

/// Finds the texts that hold `needle` and returns their positions, in
/// order. Texts and needle are compared as they are.
pub fn find_texts(texts: &Vec<Vec<char>>, needle: &Vec<char>) -> (found: Vec<usize>)
    ensures
        found@ == positions_holding(texts_of(texts@), needle@, texts.len() as int),
        forall|k: int| 0 <= k < found.len() ==> #[trigger] found[k] < texts.len(),
{
    let ghost all = texts_of(texts@);
    let mut found: Vec<usize> = Vec::new();
    let mut i: usize = 0;
    while i < texts.len()
        invariant
            i <= texts.len(),
            all == texts_of(texts@),
            found@ == positions_holding(all, needle@, i as int),
            forall|k: int| 0 <= k < found.len() ==> #[trigger] found[k] < texts.len(),
        decreases texts.len() - i,
    {
        assert(all[i as int] == texts[i as int]@);
        if chars_contain(&texts[i], needle) {
            found.push(i);
        }
        i += 1;
    }
    found
}

proof fn lemma_matching_positions(
    messages: Seq<Message>,
    bodies: Seq<Seq<char>>,
    needle: Seq<char>,
    n: int,
)
    requires
        0 <= n <= messages.len(),
        messages.len() <= usize::MAX,
        bodies.len() == messages.len(),
        forall|i: int| 0 <= i < bodies.len() ==> #[trigger] bodies[i] == lowercase(messages[i].body()),
    ensures
        matching_messages(messages, needle, n).len() == positions_holding(bodies, needle, n).len(),
        forall|k: int|
            0 <= k < positions_holding(bodies, needle, n).len() ==> (#[trigger] positions_holding(
                bodies,
                needle,
                n,
            )[k]) < n && matching_messages(messages, needle, n)[k] == hit_at(
                messages,
                positions_holding(bodies, needle, n)[k],
            ),
    decreases n,
{
    if n > 0 {
        lemma_matching_positions(messages, bodies, needle, n - 1);
        assert(bodies[n - 1] == lowercase(messages[n - 1].body()));
    }
}

/// Finds the messages whose text holds `query`, letter case aside, in their
/// order. A query of nothing but white space finds nothing.
pub fn search_messages(messages: &Vec<Message>, query: &str) -> (hits: Vec<MessageHit>)
    ensures
        is_blank(query@) ==> hits@.len() == 0,
        !is_blank(query@) ==> hits@ == matching_messages(
            messages@,
            lowercase(query@),
            messages.len() as int,
        ),
{
    let mut hits: Vec<MessageHit> = Vec::new();
    let query_chars = chars_of(query);
    if chars_blank(&query_chars) {
        return hits;
    }
    let needle = lowercase_chars(query);
    let mut bodies: Vec<Vec<char>> = Vec::new();
    let mut i: usize = 0;
    while i < messages.len()
        invariant
            i <= messages.len(),
            bodies.len() == i,
            forall|k: int| 0 <= k < i ==> (#[trigger] bodies[k])@ == lowercase(messages[k].body()),
        decreases messages.len() - i,
    {
        bodies.push(lowercase_chars(str_or_empty(&messages[i].text)));
        i += 1;
    }
    let found = find_texts(&bodies, &needle);
    let ghost wanted = matching_messages(messages@, needle@, messages.len() as int);
    proof {
        lemma_matching_positions(
            messages@,
            texts_of(bodies@),
            needle@,
            messages.len() as int,
        );
    }
    let mut k: usize = 0;
    while k < found.len()
        invariant
            k <= found.len(),
            hits.len() == k,
            found.len() == wanted.len(),
            forall|j: int| 0 <= j < found.len() ==> #[trigger] found[j] < messages.len(),
            forall|j: int|
                0 <= j < found.len() ==> wanted[j] == hit_at(messages@, #[trigger] found[j]),
            forall|j: int| 0 <= j < k ==> #[trigger] hits[j] == wanted[j],
        decreases found.len() - k,
    {
        let at = found[k];
        hits.push(MessageHit { index: at, id: messages[at].id });
        k += 1;
    }
    assert(hits@ =~= wanted);
    hits
}

} // verus!
