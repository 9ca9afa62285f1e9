use calendar_assist::prompt::basic_improve_user_prompt;

#[test]
fn next_weekday_becomes_next_week() {
    let out = basic_improve_user_prompt("lunch with Sam next monday at 3pm".to_string());
    assert_eq!(out, "lunch with Sam next week on monday at 3pm");
}

#[test]
fn this_weekday_becomes_this_week() {
    let out = basic_improve_user_prompt("dentist this Fri".to_string());
    assert_eq!(out, "dentist this week on Fri");
}

#[test]
fn every_match_is_rewritten() {
    let out = basic_improve_user_prompt("next tue or next Tue, this sun".to_string());
    assert_eq!(out, "next week on tue or next week on Tue, this week on sun");
}

#[test]
fn other_text_is_kept() {
    assert_eq!(basic_improve_user_prompt(String::new()), "");
    let plain = "call mom tomorrow, next week maybe";
    assert_eq!(basic_improve_user_prompt(plain.to_string()), plain);
    assert_eq!(basic_improve_user_prompt("NEXT MON".to_string()), "NEXT MON");
}
