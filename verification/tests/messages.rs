use procurement_utils::messages::{
    batch_process_messages, search_messages, LocalTime, Message, MessageUser,
};

fn at(year: u32, month: u32, day: u32, hours: u32, minutes: u32) -> LocalTime {
    LocalTime { year, month, day, hours, minutes }
}

fn today() -> LocalTime {
    at(2026, 2, 10, 15, 30)
}

fn yesterday() -> LocalTime {
    at(2026, 2, 9, 15, 30)
}

fn user(id: i64, first_name: &str) -> MessageUser {
    MessageUser { id: Some(id), first_name: Some(first_name.to_string()), last_name: None }
}

fn message(id: i64, text: &str, author: Option<MessageUser>, sent: Option<LocalTime>) -> Message {
    Message {
        id: Some(id),
        text: Some(text.to_string()),
        user: author,
        message_type: None,
        created_at: sent,
    }
}

#[test]
fn message_from_someone_else() {
    let list: Vec<Message> =
        vec![message(1, "hi <b>", Some(user(7, "Анна")), Some(at(2026, 2, 10, 9, 5)))];
    let shown = batch_process_messages(&list, 42, today(), yesterday());
    assert_eq!(shown.len(), 1);
    assert_eq!(shown[0].id, Some(1));
    assert_eq!(shown[0].text, "hi <b>");
    assert_eq!(shown[0].formatted_text, "hi &lt;b&gt;");
    assert!(!shown[0].is_own);
    assert!(!shown[0].is_system);
    assert_eq!(shown[0].formatted_time, "09:05");
    assert_eq!(shown[0].sender_name, "Анна");
    assert_eq!(shown[0].date_divider.as_deref(), Some("Сегодня"));
}

#[test]
fn own_message_shows_no_sender() {
    let list: Vec<Message> = vec![message(1, "x", Some(user(42, "Я")), None)];
    let shown = batch_process_messages(&list, 42, today(), yesterday());
    assert!(shown[0].is_own);
    assert_eq!(shown[0].sender_name, "");
    assert_eq!(shown[0].formatted_time, "");
    assert_eq!(shown[0].date_divider, None);
}

#[test]
fn system_message_keeps_raw_text() {
    let mut m: Message = message(1, "<i>joined</i> https://x.y\n", Some(user(7, "Бот")), None);
    m.message_type = Some("system".to_string());
    let mut other: Message = message(2, "<i>", Some(user(7, "Бот")), None);
    other.message_type = Some("System".to_string());
    let shown = batch_process_messages(&vec![m, other], 42, today(), yesterday());
    assert!(shown[0].is_system);
    assert_eq!(shown[0].formatted_text, "<i>joined</i> https://x.y\n");
    assert_eq!(shown[0].sender_name, "");
    assert!(!shown[1].is_system);
    assert_eq!(shown[1].formatted_text, "&lt;i&gt;");
    assert_eq!(shown[1].sender_name, "Бот");
}

#[test]
fn message_with_nothing_in_it() {
    let empty: Message =
        Message { id: None, text: None, user: None, message_type: None, created_at: None };
    let no_name: Message = Message {
        id: None,
        text: None,
        user: Some(MessageUser { id: None, first_name: None, last_name: None }),
        message_type: Some("text".to_string()),
        created_at: None,
    };
    let shown = batch_process_messages(&vec![empty, no_name], 0, today(), yesterday());
    for one in shown.iter() {
        assert_eq!(one.id, None);
        assert_eq!(one.text, "");
        assert_eq!(one.formatted_text, "");
        assert!(!one.is_own && !one.is_system);
        assert_eq!(one.formatted_time, "");
        assert_eq!(one.sender_name, "");
        assert_eq!(one.date_divider, None);
    }
}

#[test]
fn dividers_follow_the_days() {
    let list: Vec<Message> = vec![
        message(1, "a", None, Some(at(2025, 11, 31, 23, 59))),
        message(2, "b", None, Some(at(2026, 0, 5, 0, 0))),
        message(3, "c", None, Some(at(2026, 0, 5, 12, 0))),
        message(4, "d", None, None),
        message(5, "e", None, Some(at(2026, 0, 5, 13, 0))),
        message(6, "f", None, Some(at(2026, 2, 9, 8, 0))),
        message(7, "g", None, Some(at(2026, 2, 10, 8, 0))),
        message(8, "h", None, Some(at(2026, 2, 10, 8, 1))),
        message(9, "i", None, Some(at(2026, 2, 9, 8, 0))),
    ];
    let shown = batch_process_messages(&list, 1, today(), yesterday());
    let dividers: Vec<Option<&str>> = shown.iter().map(|m| m.date_divider.as_deref()).collect();
    assert_eq!(
        dividers,
        vec![
            Some("31 декабря 2025"),
            Some("5 января"),
            None,
            None,
            None,
            Some("Вчера"),
            Some("Сегодня"),
            None,
            Some("Вчера"),
        ]
    );
    let times: Vec<&str> = shown.iter().map(|m| m.formatted_time.as_str()).collect();
    assert_eq!(times, vec!["23:59", "00:00", "12:00", "", "13:00", "08:00", "08:00", "08:01", "08:00"]);
}

#[test]
fn batch_of_no_messages() {
    assert!(batch_process_messages(&Vec::new(), 1, today(), yesterday()).is_empty());
}

fn found(list: &Vec<Message>, query: &str) -> Vec<(usize, Option<i64>)> {
    search_messages(list, query).iter().map(|h| (h.index, h.id)).collect()
}

#[test]
fn search_messages_in_order() {
    let mut without_id: Message = message(0, "третий ПРИВЕТ", None, None);
    without_id.id = None;
    let list: Vec<Message> = vec![
        message(10, "Привет, мир", None, None),
        message(11, "пока", None, None),
        without_id,
        Message { id: Some(13), text: None, user: None, message_type: None, created_at: None },
    ];
    assert_eq!(found(&list, "привет"), vec![(0, Some(10)), (2, None)]);
    assert_eq!(found(&list, "ПРИВЕТ"), vec![(0, Some(10)), (2, None)]);
    assert_eq!(found(&list, "нет такого"), vec![]);
}

#[test]
fn search_messages_blank_query() {
    let list: Vec<Message> = vec![message(10, "a b", None, None)];
    assert_eq!(found(&list, ""), vec![]);
    assert_eq!(found(&list, "  \n"), vec![]);
}

#[test]
fn search_messages_takes_the_query_whole() {
    let list: Vec<Message> = vec![message(1, "ab cd", None, None), message(2, "cd ab", None, None)];
    assert_eq!(found(&list, "ab cd"), vec![(0, Some(1))]);
    assert_eq!(found(&list, " ab"), vec![(1, Some(2))]);
}
