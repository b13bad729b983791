use work_tock_lib::{
    reconstruct_intervals, Anomaly, ClockAction, Clockin, Date, LineErr, STime, TokErr,
};

fn entries(text: &str) -> Vec<Clockin> {
    work_tock_lib::read_string(text).expect("log should parse").clocks
}

#[test]
fn dated_clockin_keeps_date_and_time() {
    let all = entries("23/1/2019,9:30");
    assert_eq!(all.len(), 1);
    match &all[0] {
        Clockin::In(d) => {
            assert_eq!(d.date, Date::new(2019, 1, 23));
            assert_eq!(d.time, STime::new(9, 30));
            assert_eq!(d.job, "General".to_string());
            assert_eq!(d.tags, Vec::<String>::new());
            assert_eq!(d.line, 1);
        },
        Clockin::Out(_) => panic!("expected a clock-in"),
    }
}

#[test]
fn job_and_tags_are_snapshotted() {
    let all = entries("23/1/2019\ncar_wash,_am,_solo,12:30\n-13:50");
    match &all[0] {
        Clockin::In(d) => {
            assert_eq!(d.job, "car_wash".to_string());
            assert_eq!(d.tags, vec!["am".to_string(), "solo".to_string()]);
            assert_eq!(d.line, 2);
        },
        Clockin::Out(_) => panic!("expected a clock-in"),
    }
    assert_eq!(all.len(), 2);
    match &all[1] {
        Clockin::Out(t) => assert_eq!(*t, STime::new(13, 50)),
        Clockin::In(_) => panic!("expected a clock-out"),
    }
}

#[test]
fn two_ins_auto_close_the_first() {
    let all = entries("1/1/2020,job1,9:00\njob2,10:00\n-11:00");
    let rec = reconstruct_intervals(all);
    assert_eq!(rec.intervals.len(), 2);
    assert_eq!(rec.intervals[0].data.job, "job1".to_string());
    assert_eq!(rec.intervals[0].data.time, STime::new(9, 0));
    assert_eq!(rec.intervals[0].out, STime::new(10, 0));
    assert_eq!(rec.intervals[1].data.job, "job2".to_string());
    assert_eq!(rec.intervals[1].data.time, STime::new(10, 0));
    assert_eq!(rec.intervals[1].out, STime::new(11, 0));
    assert!(rec.open_in.is_none());
    assert!(rec.anomalies.is_empty());
}

#[test]
fn clear_tags_empties_until_next_add() {
    let all = entries("1/1/2020,_a,_b,9:00,__,10:00,_c,11:00");
    match &all[0] {
        Clockin::In(d) => assert_eq!(d.tags, vec!["a".to_string(), "b".to_string()]),
        Clockin::Out(_) => panic!("expected a clock-in"),
    }
    match &all[1] {
        Clockin::In(d) => assert_eq!(d.tags, Vec::<String>::new()),
        Clockin::Out(_) => panic!("expected a clock-in"),
    }
    match &all[2] {
        Clockin::In(d) => assert_eq!(d.tags, vec!["c".to_string()]),
        Clockin::Out(_) => panic!("expected a clock-in"),
    }
}

#[test]
fn clear_tags_with_replacement() {
    let all = entries("1/1/2020,_a,_b,__solo,9:00");
    match &all[0] {
        Clockin::In(d) => assert_eq!(d.tags, vec!["solo".to_string()]),
        Clockin::Out(_) => panic!("expected a clock-in"),
    }
}

#[test]
fn dateless_date_without_year_is_an_error() {
    let r = work_tock_lib::read_string("23/1,9:00");
    assert_eq!(
        r.err().expect("must fail"),
        TokErr::Lines(vec![LineErr { line: 1, err: TokErr::NotSet("date".to_string()) }])
    );
}

#[test]
fn year_override_resolves_dateless_dates() {
    let all = entries("=year:2019,23/1,9:00");
    match &all[0] {
        Clockin::In(d) => assert_eq!(d.date, Date::new(2019, 1, 23)),
        Clockin::Out(_) => panic!("expected a clock-in"),
    }
}

#[test]
fn year_suffix_form_also_sets_year() {
    let all = entries("year=2021,23/1,9:00");
    match &all[0] {
        Clockin::In(d) => assert_eq!(d.date, Date::new(2021, 1, 23)),
        Clockin::Out(_) => panic!("expected a clock-in"),
    }
}

#[test]
fn unmatched_out_is_reported_and_skipped() {
    let all = entries("-9:00,1/1/2020,10:00,-11:00");
    let rec = reconstruct_intervals(all);
    assert_eq!(rec.anomalies, vec![Anomaly::UnmatchedOut]);
    assert_eq!(rec.intervals.len(), 1);
    assert_eq!(rec.intervals[0].out, STime::new(11, 0));
    assert!(rec.open_in.is_none());
}

#[test]
fn negative_out_is_reported_and_skipped() {
    let all = entries("1/1/2020\n10:00,-9:00");
    let rec = reconstruct_intervals(all);
    assert_eq!(rec.anomalies, vec![Anomaly::NegativeTime(2)]);
    assert!(rec.intervals.is_empty());
    assert!(rec.open_in.is_none());
}

#[test]
fn trailing_in_stays_open() {
    let all = entries("1/1/2020,9:00");
    let rec = reconstruct_intervals(all);
    assert!(rec.intervals.is_empty());
    let open = rec.open_in.expect("session must stay open");
    assert_eq!(open.time, STime::new(9, 0));
}

#[test]
fn in_out_record_makes_one_interval() {
    let all = entries("1/1/2020,car_wash,12:30-13:50");
    let rec = reconstruct_intervals(all);
    assert_eq!(rec.intervals.len(), 1);
    assert_eq!(rec.intervals[0].data.time, STime::new(12, 30));
    assert_eq!(rec.intervals[0].out, STime::new(13, 50));
    assert!(rec.open_in.is_none());
}

#[test]
fn group_redefinition_replaces_whole() {
    let all = work_tock_lib::read_string("$home[car_wash,eat]\n$home[sleep]").expect("parses");
    let members = all.groups.get("home").expect("group must exist");
    assert_eq!(members, &vec!["sleep".to_string()]);
    assert!(all.groups.get("work").is_none());
}

#[test]
fn group_members_tolerate_junk_and_comments() {
    let all = work_tock_lib::read_string("$home[car_wash, #chores\n eat]").expect("parses");
    let members = all.groups.get("home").expect("group must exist");
    assert_eq!(members, &vec!["car_wash".to_string(), "eat".to_string()]);
}

#[test]
fn comments_and_blank_runs_are_ignored() {
    let all = entries("#header\n\n 1/1/2020 , #note\n 9:00 ");
    assert_eq!(all.len(), 1);
}

#[test]
fn empty_log_parses_to_nothing() {
    let all = work_tock_lib::read_string("").expect("parses");
    assert!(all.clocks.is_empty());
    let rec = reconstruct_intervals(all.clocks);
    assert!(rec.intervals.is_empty());
    assert!(rec.anomalies.is_empty());
    assert!(rec.open_in.is_none());
}

#[test]
fn quoted_job_names_take_escapes() {
    let all = entries("1/1/2020,\"two words\\there\",9:00");
    match &all[0] {
        Clockin::In(d) => assert_eq!(d.job, "two words\there".to_string()),
        Clockin::Out(_) => panic!("expected a clock-in"),
    }
}

#[test]
fn structural_error_carries_line_and_column() {
    assert_eq!(
        work_tock_lib::read_string("9:00,@!").err().expect("must fail"),
        TokErr::ParseErr(1, 6)
    );
    assert_eq!(
        work_tock_lib::read_string("9:00\n@!").err().expect("must fail"),
        TokErr::ParseErr(2, 1)
    );
}

#[test]
fn oversized_number_is_structural() {
    assert!(matches!(
        work_tock_lib::read_string("9999999999999999999999:00").err().expect("must fail"),
        TokErr::ParseErr(1, 1)
    ));
}

#[test]
fn identical_input_reparses_identically() {
    let text = "$home[eat]\n23/1/2019\ncar_wash,12:30-13:50\n15:00,#implied\n-16:00";
    let a = work_tock_lib::read_string(text).expect("parses");
    let b = work_tock_lib::read_string(text).expect("parses");
    assert_eq!(a.clocks, b.clocks);
    let ra = reconstruct_intervals(a.clocks);
    let rb = reconstruct_intervals(b.clocks);
    assert_eq!(ra.intervals.len(), rb.intervals.len());
    for (x, y) in ra.intervals.iter().zip(rb.intervals.iter()) {
        assert_eq!(x.data, y.data);
        assert_eq!(x.out, y.out);
    }
}

#[test]
fn read_date_takes_default_year() {
    assert_eq!(
        work_tock_lib::clockin::read_date("23/1/2019", 2000),
        Ok(Date::new(2019, 1, 23))
    );
    assert_eq!(
        work_tock_lib::clockin::read_date("23/1", 2000),
        Ok(Date::new(2000, 1, 23))
    );
    assert_eq!(
        work_tock_lib::clockin::read_date("nope", 2000),
        Err(TokErr::Mess("Could not read date".to_string()))
    );
}

#[test]
fn as_date_reads_only_date_actions() {
    let a = ClockAction::SetDate(23, 1, Some(2019));
    assert_eq!(a.as_date(2000), Some(Date::new(2019, 1, 23)));
    let b = ClockAction::SetDate(23, 1, None);
    assert_eq!(b.as_date(2000), Some(Date::new(2000, 1, 23)));
    let c = ClockAction::SetJob("car_wash".to_string());
    assert_eq!(c.as_date(2000), None);
}
