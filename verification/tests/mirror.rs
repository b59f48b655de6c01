use futaba::mirror::{attends, calendar_of, has_mirror, plan, Calendar, Mirror, MirrorAction};

fn mirror(user_id: i64, event: &str) -> Mirror {
    Mirror { user_id, google_event_id: event.to_string() }
}

fn calendar(user_id: i64, id: &str) -> Calendar {
    Calendar { user_id, calendar_id: id.to_string() }
}

#[test]
fn the_first_calendar_of_a_user_is_theirs() {
    let calendars = vec![calendar(1, "c1"), calendar(2, "c2"), calendar(1, "c1b")];
    assert_eq!(calendar_of(&calendars, 1), Some(&"c1".to_string()));
    assert_eq!(calendar_of(&calendars, 2), Some(&"c2".to_string()));
    assert_eq!(calendar_of(&calendars, 3), None);
    assert_eq!(calendar_of(&Vec::new(), 1), None);
}

#[test]
fn attendees_and_mirrors_are_found() {
    assert!(attends(&vec![3, 1, 2], 2));
    assert!(!attends(&vec![3, 1, 2], 4));
    assert!(!attends(&Vec::new(), 4));
    assert!(has_mirror(&vec![mirror(1, "e1")], 1));
    assert!(!has_mirror(&vec![mirror(1, "e1")], 2));
}

#[test]
fn who_left_is_removed_who_came_is_created_who_stayed_is_refreshed() {
    let saved = vec![mirror(1, "e1"), mirror(2, "e2"), mirror(3, "e3")];
    let attendees = vec![4, 2, 5, 3];
    let calendars = vec![calendar(1, "c1"), calendar(2, "c2"), calendar(3, "c3"), calendar(4, "c4"), calendar(5, "c5")];
    assert_eq!(
        plan(&saved, &attendees, &calendars),
        vec![
            MirrorAction::Remove {
                user_id: 1,
                calendar_id: "c1".to_string(),
                google_event_id: "e1".to_string()
            },
            MirrorAction::Create { user_id: 4, calendar_id: "c4".to_string() },
            MirrorAction::Create { user_id: 5, calendar_id: "c5".to_string() },
            MirrorAction::Refresh {
                user_id: 2,
                calendar_id: "c2".to_string(),
                google_event_id: "e2".to_string()
            },
            MirrorAction::Refresh {
                user_id: 3,
                calendar_id: "c3".to_string(),
                google_event_id: "e3".to_string()
            },
        ]
    );
}

#[test]
fn who_has_no_calendar_is_passed_over() {
    let saved = vec![mirror(1, "e1"), mirror(2, "e2")];
    let attendees = vec![2, 3];
    assert_eq!(plan(&saved, &attendees, &Vec::new()), Vec::new());
    let only_three = vec![calendar(3, "c3")];
    assert_eq!(
        plan(&saved, &attendees, &only_three),
        vec![MirrorAction::Create { user_id: 3, calendar_id: "c3".to_string() }]
    );
}

#[test]
fn nothing_saved_and_nobody_attending() {
    let calendars = vec![calendar(1, "c1")];
    assert_eq!(plan(&Vec::new(), &Vec::new(), &calendars), Vec::new());
    assert_eq!(
        plan(&Vec::new(), &vec![1], &calendars),
        vec![MirrorAction::Create { user_id: 1, calendar_id: "c1".to_string() }]
    );
    assert_eq!(
        plan(&vec![mirror(1, "e1")], &Vec::new(), &calendars),
        vec![MirrorAction::Remove {
            user_id: 1,
            calendar_id: "c1".to_string(),
            google_event_id: "e1".to_string()
        }]
    );
}
