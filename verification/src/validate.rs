//! Validation of what a user types into a form.

use crate::text::{
    chars_blank, chars_of, find_char, is_blank, position_of, push_str, string_of, utf8_len,
    utf8_longer_than,
};
use vstd::prelude::*;

verus! {

/// One of the digits `0` to `9`.
pub open spec fn is_ascii_digit(c: char) -> bool {
    '0' <= c <= '9'
}

/// A phone number that may be saved: nothing at all, or a `+` followed by
/// digits only, 11 to 16 characters in all.
pub open spec fn is_valid_phone(s: Seq<char>) -> bool {
    s.len() == 0 || (s[0] == '+' && 11 <= s.len() <= 16 && forall|i: int|
        1 <= i < s.len() ==> is_ascii_digit(#[trigger] s[i]))
}

/// An e-mail address that may be saved: nothing at all, or a text with
/// exactly one `@`, something before it, and behind it a domain that holds
/// a `.` and takes more than two bytes.
pub open spec fn is_valid_email(s: Seq<char>) -> bool {
    let at = position_of(s, '@', 0);
    s.len() == 0 || {
        &&& 0 < at < s.len()
        &&& position_of(s, '@', at + 1) == s.len()
        &&& position_of(s, '.', at + 1) < s.len()
        &&& utf8_len(s, at + 1) > 2
    }
}

/// A fault found in a form: the field and what to tell the user.
pub struct FieldError {
    pub field: String,
    pub message: String,
}

/// A fault as a pair of texts.
pub type Fault = (Seq<char>, Seq<char>);

/// The fault of the title, if it has one: it must not be blank, nor longer
/// than 200 characters.
pub open spec fn title_fault(title: Seq<char>) -> Option<Fault> {
    if is_blank(title) {
        Some(("title"@, "Название обязательно"@))
    } else if title.len() > 200 {
        Some(("title"@, "Название не должно превышать 200 символов"@))
    } else {
        None
    }
}

/// A list with one more fault, where there is one.
pub open spec fn with_fault(faults: Seq<Fault>, fault: Option<Fault>) -> Seq<Fault> {
    match fault {
        Some(f) => faults.push(f),
        None => faults,
    }
}

/// The fault of a field that must not be blank.
pub open spec fn blank_fault(value: Seq<char>, field: Seq<char>, message: Seq<char>) -> Option<
    Fault,
> {
    if is_blank(value) {
        Some((field, message))
    } else {
        None
    }
}

/// The fault reported when `broken` holds.
pub open spec fn fault_if(broken: bool, field: Seq<char>, message: Seq<char>) -> Option<Fault> {
    if broken {
        Some((field, message))
    } else {
        None
    }
}

/// The faults of a procurement form, in the order of its fields: the title
/// must not be blank nor longer than 200 characters, description and city
/// must not be blank, the target must be positive and the deadline must lie
/// ahead of `now_ms`.
pub open spec fn form_faults(
    title: Seq<char>,
    description: Seq<char>,
    city: Seq<char>,
    target_amount: int,
    deadline_ms: int,
    now_ms: int,
) -> Seq<Fault> {
    let f0 = with_fault(Seq::empty(), title_fault(title));
    let f1 = with_fault(f0, blank_fault(description, "description"@, "Описание обязательно"@));
    let f2 = with_fault(f1, blank_fault(city, "city"@, "Город обязателен"@));
    let f3 = with_fault(
        f2,
        fault_if(target_amount <= 0, "target_amount"@, "Целевая сумма должна быть положительной"@),
    );
    with_fault(f3, fault_if(deadline_ms <= now_ms, "deadline"@, "Дедлайн должен быть в будущем"@))
}

/// The first `n` faults as members of a JSON object, set apart by commas.
pub open spec fn members_json(faults: Seq<Fault>, n: int) -> Seq<char>
    decreases n,
{
    if n <= 0 {
        Seq::empty()
    } else {
        let comma = if n > 1 {
            ","@
        } else {
            Seq::empty()
        };
        members_json(faults, n - 1) + comma + "\""@ + faults[n - 1].0 + "\":\""@ + faults[n - 1].1
            + "\""@
    }
}

/// The faults as a JSON object from field to message; `{}` for none.
pub open spec fn faults_json(faults: Seq<Fault>) -> Seq<char> {
    "{"@ + members_json(faults, faults.len() as int) + "}"@
}

/// The faults held by a list of field errors.
pub open spec fn faults_of(errors: Seq<FieldError>) -> Seq<Fault> {
    Seq::new(errors.len(), |i: int| (errors[i].field@, errors[i].message@))
}

/// Checks a phone number. An empty one is accepted: the phone is optional.
pub fn validate_phone(phone: &str) -> (valid: bool)
    ensures
        valid == is_valid_phone(phone@),
{
    let chars = chars_of(phone);
    if chars.len() == 0 {
        return true;
    }
    if chars[0] != '+' || chars.len() < 11 || chars.len() > 16 {
        return false;
    }
    let mut i: usize = 1;
    while i < chars.len()
        invariant
            1 <= i <= chars.len(),
            chars@ == phone@,
            chars@[0] == '+',
            11 <= chars.len() <= 16,
            forall|j: int| 1 <= j < i ==> is_ascii_digit(#[trigger] chars@[j]),
        decreases chars.len() - i,
    {
        let c = chars[i];
        if !('0' <= c && c <= '9') {
            assert(!is_ascii_digit(chars@[i as int]));
            return false;
        }
        i += 1;
    }
    true
}

/// Checks an e-mail address. An empty one is accepted: the address is
/// optional.
pub fn validate_email(email: &str) -> (valid: bool)
    ensures
        valid == is_valid_email(email@),
{
    let chars = chars_of(email);
    if chars.len() == 0 {
        return true;
    }
    let at = find_char(&chars, '@', 0);
    if at == 0 || at >= chars.len() {
        return false;
    }
    let next_at = find_char(&chars, '@', at + 1);
    let dot = find_char(&chars, '.', at + 1);
    next_at == chars.len() && dot < chars.len() && utf8_longer_than(&chars, at + 1, 2)
}

fn add_fault(errors: &mut Vec<FieldError>, broken: bool, field: &str, message: &str)
    ensures
        faults_of(final(errors)@) == with_fault(
            faults_of(old(errors)@),
            fault_if(broken, field@, message@),
        ),
{
    if broken {
        errors.push(FieldError { field: field.to_owned(), message: message.to_owned() });
        assert(faults_of(errors@) =~= faults_of(old(errors)@).push((field@, message@)));
    }
}

/// Lists the faults of a procurement form, in the order of its fields.
pub fn form_errors(
    title: &str,
    description: &str,
    city: &str,
    target_amount: i64,
    deadline_ms: i64,
    now_ms: i64,
) -> (errors: Vec<FieldError>)
    ensures
        faults_of(errors@) == form_faults(
            title@,
            description@,
            city@,
            target_amount as int,
            deadline_ms as int,
            now_ms as int,
        ),
{
    let mut errors: Vec<FieldError> = Vec::new();
    assert(faults_of(errors@) =~= Seq::<Fault>::empty());
    let title_chars = chars_of(title);
    let title_blank = chars_blank(&title_chars);
    add_fault(&mut errors, title_blank, "title", "Название обязательно");
    add_fault(
        &mut errors,
        !title_blank && title_chars.len() > 200,
        "title",
        "Название не должно превышать 200 символов",
    );
    let description_chars = chars_of(description);
    add_fault(
        &mut errors,
        chars_blank(&description_chars),
        "description",
        "Описание обязательно",
    );
    let city_chars = chars_of(city);
    add_fault(&mut errors, chars_blank(&city_chars), "city", "Город обязателен");
    add_fault(
        &mut errors,
        target_amount <= 0,
        "target_amount",
        "Целевая сумма должна быть положительной",
    );
    add_fault(&mut errors, deadline_ms <= now_ms, "deadline", "Дедлайн должен быть в будущем");
    errors
}

/// Writes a list of field errors as a JSON object from field to message.
pub fn errors_to_json(errors: &Vec<FieldError>) -> (json: String)
    ensures
        json@ == faults_json(faults_of(errors@)),
{
    let ghost faults = faults_of(errors@);
    let mut out: Vec<char> = Vec::new();
    push_str(&mut out, "{");
    let mut i: usize = 0;
    while i < errors.len()
        invariant
            i <= errors.len(),
            faults == faults_of(errors@),
            out@ == "{"@ + members_json(faults, i as int),
        decreases errors.len() - i,
    {
        let ghost before = out@;
        if i > 0 {
            push_str(&mut out, ",");
        }
        push_str(&mut out, "\"");
        push_str(&mut out, errors[i].field.as_str());
        push_str(&mut out, "\":\"");
        push_str(&mut out, errors[i].message.as_str());
        push_str(&mut out, "\"");
        assert(out@ =~= "{"@ + members_json(faults, i + 1));
        i += 1;
    }
    push_str(&mut out, "}");
    string_of(&out)
}

/// Checks a procurement form and reports its faults as a JSON object from
/// field to message in Russian; `{}` when the form is in order.
pub fn validate_procurement_form(
    title: &str,
    description: &str,
    city: &str,
    target_amount: i64,
    deadline_ms: i64,
    now_ms: i64,
) -> (json: String)
    ensures
        json@ == faults_json(
            form_faults(
                title@,
                description@,
                city@,
                target_amount as int,
                deadline_ms as int,
                now_ms as int,
            ),
        ),
{
    let errors = form_errors(title, description, city, target_amount, deadline_ms, now_ms);
    errors_to_json(&errors)
}

} // verus!
