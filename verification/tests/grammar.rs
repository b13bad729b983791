use work_tock_lib::gob;
use work_tock_lib::{ClockAction, STime, TokErr};

#[test]
fn actions_carry_line_and_column() {
    let v = gob::line_clock_actions("car_wash, 12:30\n -13:50").expect("parses");
    assert_eq!(v.len(), 3);
    assert_eq!((v[0].line, v[0].col), (1, 1));
    assert_eq!((v[1].line, v[1].col), (1, 11));
    assert_eq!((v[2].line, v[2].col), (2, 2));
    assert!(matches!(&v[0].action, ClockAction::SetJob(j) if j == "car_wash"));
    assert!(matches!(&v[1].action, ClockAction::In(t) if *t == STime::new(12, 30)));
    assert!(matches!(&v[2].action, ClockAction::Out(t) if *t == STime::new(13, 50)));
}

#[test]
fn date_forms_and_year_suffix() {
    let v = gob::line_clock_actions("23/1/2019, 24 / 2, =year:2020, pay=7").expect("parses");
    assert!(matches!(v[0].action, ClockAction::SetDate(23, 1, Some(2019))));
    assert!(matches!(v[1].action, ClockAction::SetDate(24, 2, None)));
    assert!(matches!(&v[2].action, ClockAction::SetNum(k, 2020) if k == "year"));
    assert!(matches!(&v[3].action, ClockAction::SetNum(k, 7) if k == "pay"));
}

#[test]
fn in_out_and_tag_forms() {
    let v = gob::line_clock_actions("9:00-10:30,_am,__,__solo").expect("parses");
    assert!(
        matches!(v[0].action, ClockAction::InOut(a, b) if a == STime::new(9, 0) && b == STime::new(10, 30))
    );
    assert!(matches!(&v[1].action, ClockAction::AddTag(t) if t == "am"));
    assert!(matches!(v[2].action, ClockAction::ClearTags(None)));
    assert!(matches!(&v[3].action, ClockAction::ClearTags(Some(t)) if t == "solo"));
}

#[test]
fn group_form_collects_members() {
    let v = gob::line_clock_actions("$home_jobs[car_wash,eat]").expect("parses");
    match &v[0].action {
        ClockAction::DefGroup(k, m) => {
            assert_eq!(k, "home_jobs");
            assert_eq!(m, &vec!["car_wash".to_string(), "eat".to_string()]);
        },
        _ => panic!("expected a group definition"),
    }
}

#[test]
fn negative_setnum_value_is_read() {
    let v = gob::line_clock_actions("=offset:-30").expect("parses");
    assert!(matches!(&v[0].action, ClockAction::SetNum(k, -30) if k == "offset"));
}

#[test]
fn unterminated_quote_is_structural() {
    assert_eq!(
        gob::line_clock_actions("\"no end").err().expect("must fail"),
        TokErr::ParseErr(1, 1)
    );
}

#[test]
fn do_quotes_wraps_only_split_names() {
    assert_eq!(gob::do_quotes("car_wash"), "car_wash".to_string());
    assert_eq!(gob::do_quotes("two words"), "\"two words\"".to_string());
    assert_eq!(gob::do_quotes(""), "".to_string());
}

#[test]
fn trailing_comment_and_separators_end_cleanly() {
    let v = gob::line_clock_actions("9:00, # done for the day").expect("parses");
    assert_eq!(v.len(), 1);
    let v2 = gob::line_clock_actions(" ,,, \n # only noise").expect("parses");
    assert!(v2.is_empty());
}
