use chatbot_core::db::stats::{push_share, render_ranking, share, UserPercent};
use chatbot_core::db::Chat;

fn populated(counts: &[(&str, u64, usize)]) -> Chat {
    let mut cs = Chat::in_memory();
    let mut id = 0;
    for (name, user, n) in counts {
        for _ in 0..*n {
            id += 1;
            cs.store_msg(-10, id, name, Some("m"), id as i64, *user, "").unwrap();
        }
    }
    cs
}

fn row(user: &str, user_id: i64, messages: u64, total: u64) -> UserPercent {
    UserPercent { user: user.to_string(), user_id, messages, total }
}

#[test]
fn share_rounds_to_the_nearest_hundredth() {
    assert_eq!(share(5, 10), 5000);
    assert_eq!(share(3, 10), 3000);
    assert_eq!(share(1, 3), 3333);
    assert_eq!(share(2, 3), 6667);
    assert_eq!(share(0, 3), 0);
    assert_eq!(share(3, 3), 10000);
}

#[test]
fn share_rounds_ties_to_the_even_hundredth() {
    assert_eq!(share(1, 32), 312);
    assert_eq!(share(3, 32), 938);
    assert_eq!(share(1, 160), 62);
}

#[test]
fn share_of_nothing_is_zero_and_never_exceeds_the_whole() {
    assert_eq!(share(0, 0), 0);
    assert_eq!(share(5, 0), 0);
    assert_eq!(share(7, 3), 10000);
    assert_eq!(share(u64::MAX - 1, u64::MAX), 10000);
    assert_eq!(share(1, u64::MAX), 0);
}

#[test]
fn push_share_writes_name_and_percentage() {
    let mut out = String::from("> ");
    push_share(&mut out, "ann", 1, 3);
    assert_eq!(out, "> ann 33.33%");
    let mut out = String::new();
    push_share(&mut out, "", 1, 100);
    assert_eq!(out, " 1.00%");
}

#[test]
fn ranking_is_sorted_and_sums_to_the_whole() {
    let cs = populated(&[("low", 1, 2), ("top", 2, 5), ("mid", 3, 3)]);
    let rows = cs.get_group_percent(-10);
    assert_eq!(rows, vec![row("top", 2, 5, 10), row("mid", 3, 3, 10), row("low", 1, 2, 10)]);
    assert_eq!(rows.iter().map(|r| r.messages).sum::<u64>(), 10);
    assert_eq!(rows.iter().map(|r| share(r.messages, r.total)).sum::<u64>(), 10000);
    assert!(rows.windows(2).all(|w| w[0].messages >= w[1].messages));
}

#[test]
fn ranking_breaks_ties_by_first_appearance() {
    let mut cs = Chat::in_memory();
    cs.store_msg(-1, 1, "b", Some("x"), 1, 2, "").unwrap();
    cs.store_msg(-1, 2, "a", Some("x"), 2, 1, "").unwrap();
    cs.store_msg(-1, 3, "c", Some("x"), 3, 3, "").unwrap();
    cs.store_msg(-1, 4, "c", Some("x"), 4, 3, "").unwrap();
    cs.store_msg(-1, 5, "a", Some("x"), 5, 1, "").unwrap();
    cs.store_msg(-1, 6, "b", Some("x"), 6, 2, "").unwrap();
    let ids: Vec<i64> = cs.get_group_percent(-1).iter().map(|r| r.user_id).collect();
    assert_eq!(ids, vec![2, 1, 3]);
}

#[test]
fn ranking_leaves_out_unknown_authors_and_other_conversations() {
    let mut cs = Chat::in_memory();
    cs.store_msg(-1, 1, "", None, 1, 0, "").unwrap();
    cs.store_msg(-1, 2, "a", None, 2, 1, "").unwrap();
    cs.store_msg(-2, 3, "b", Some("x"), 3, 2, "").unwrap();
    assert_eq!(cs.get_group_percent(-1), vec![row("a", 1, 1, 1)]);
    assert_eq!(cs.get_group_percent(-3), vec![]);
}

#[test]
fn ranking_shows_the_name_on_the_first_record() {
    let mut cs = Chat::in_memory();
    cs.store_msg(-1, 1, "before", Some("x"), 1, 1, "").unwrap();
    cs.store_msg(-1, 2, "after", Some("x"), 2, 1, "").unwrap();
    assert_eq!(cs.get_group_percent(-1), vec![row("before", 1, 2, 2)]);
}

#[test]
fn ranking_text_has_medals_for_the_first_three() {
    let rows = vec![
        row("a", 1, 4, 10),
        row("b", 2, 3, 10),
        row("c", 3, 2, 10),
        row("d", 4, 1, 10),
    ];
    assert_eq!(
        render_ranking(&rows),
        "🥇 a 40.00%\n🥈 b 30.00%\n🥉 c 20.00%\nd 10.00%\n\n#stats"
    );
    assert_eq!(render_ranking(&vec![]), "\n#stats");
}

#[test]
fn group_percent_str_of_five_three_two() {
    let cs = populated(&[("ann", 1, 5), ("bob", 2, 3), ("cy", 3, 2)]);
    assert_eq!(
        cs.get_group_percent_str(-10),
        "🥇 ann 50.00%\n🥈 bob 30.00%\n🥉 cy 20.00%\n\n#stats"
    );
}

#[test]
fn user_percent_str_counts_by_name() {
    let cs = populated(&[("ann", 1, 5), ("bob", 2, 3), ("ann", 3, 2)]);
    assert_eq!(cs.get_user_percent_str(-10, "ann"), "ann 70.00%");
    assert_eq!(cs.get_user_percent_str(-10, "bob"), "bob 30.00%");
    assert_eq!(cs.get_user_percent_str(-10, "nobody"), "nobody 0.00%");
    assert_eq!(cs.get_user_percent_str(-11, "ann"), "ann 0.00%");
}
