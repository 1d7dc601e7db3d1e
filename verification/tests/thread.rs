use mastodon_thread::model::{Account, Status};
use mastodon_thread::thread::{is_continuation, partition_replies, reconstruct_thread};

fn post(id: &str, author: &str, reply_to: Option<&str>) -> Status {
    Status {
        id: id.to_string(),
        in_reply_to_id: reply_to.map(|target| target.to_string()),
        account: Account {
            id: author.to_string(),
            username: format!("user-{author}"),
            display_name: format!("User {author}"),
        },
        content: format!("<p>post {id}</p>"),
    }
}

fn ids(thread: &[Status]) -> Vec<String> {
    thread.iter().map(|status| status.id.clone()).collect()
}

#[test]
fn chain_is_followed_across_rounds() {
    let root = post("1", "A", None);
    let descendants = vec![
        post("2", "A", Some("1")),
        post("3", "A", Some("2")),
        post("4", "B", Some("1")),
    ];
    let thread = reconstruct_thread(root, descendants);
    assert_eq!(ids(&thread), vec!["1", "2", "3"]);
}

#[test]
fn chain_is_followed_when_listed_backwards() {
    let root = post("1", "A", None);
    let descendants = vec![
        post("4", "A", Some("3")),
        post("3", "A", Some("2")),
        post("2", "A", Some("1")),
    ];
    let thread = reconstruct_thread(root, descendants);
    assert_eq!(ids(&thread), vec!["1", "2", "3", "4"]);
}

#[test]
fn replies_of_one_round_keep_their_order() {
    let root = post("1", "A", None);
    let descendants = vec![post("2", "A", Some("1")), post("3", "A", Some("1"))];
    let thread = reconstruct_thread(root, descendants);
    assert_eq!(ids(&thread), vec!["1", "2", "3"]);

    let root = post("1", "A", None);
    let descendants = vec![post("3", "A", Some("1")), post("2", "A", Some("1"))];
    let thread = reconstruct_thread(root, descendants);
    assert_eq!(ids(&thread), vec!["1", "3", "2"]);
}

#[test]
fn next_round_follows_the_last_post_of_a_batch_only() {
    let root = post("1", "A", None);
    let descendants = vec![
        post("2", "A", Some("1")),
        post("3", "A", Some("1")),
        post("4", "A", Some("2")),
        post("5", "A", Some("3")),
        post("6", "A", Some("5")),
    ];
    let thread = reconstruct_thread(root, descendants);
    assert_eq!(ids(&thread), vec!["1", "2", "3", "5", "6"]);
}

#[test]
fn root_alone_without_descendants() {
    let root = post("1", "A", None);
    let thread = reconstruct_thread(root.clone(), Vec::new());
    assert_eq!(thread, vec![root]);
}

#[test]
fn root_alone_when_no_descendant_is_by_its_author() {
    let root = post("1", "A", None);
    let descendants = vec![
        post("2", "B", Some("1")),
        post("3", "C", Some("2")),
        post("4", "B", Some("3")),
    ];
    let thread = reconstruct_thread(root.clone(), descendants);
    assert_eq!(thread, vec![root]);
}

#[test]
fn root_alone_when_the_author_replies_to_others_only() {
    let root = post("1", "A", None);
    let descendants = vec![post("2", "B", Some("1")), post("3", "A", Some("2"))];
    let thread = reconstruct_thread(root.clone(), descendants);
    assert_eq!(thread, vec![root]);
}

#[test]
fn first_post_is_the_root_as_given() {
    let root = post("9", "A", Some("8"));
    let descendants = vec![post("10", "A", Some("9")), post("9", "B", Some("9"))];
    let thread = reconstruct_thread(root.clone(), descendants);
    assert_eq!(thread[0], root);
    assert_eq!(ids(&thread), vec!["9", "10"]);
}

#[test]
fn posts_are_moved_into_the_thread_whole() {
    let root = post("1", "A", None);
    let reply = post("2", "A", Some("1"));
    let thread = reconstruct_thread(root.clone(), vec![reply.clone()]);
    assert_eq!(thread, vec![root, reply]);
}

#[test]
fn same_input_gives_the_same_thread() {
    let root = post("1", "A", None);
    let descendants = vec![
        post("5", "A", Some("3")),
        post("2", "A", Some("1")),
        post("4", "B", Some("2")),
        post("3", "A", Some("2")),
    ];
    let first = reconstruct_thread(root.clone(), descendants.clone());
    let second = reconstruct_thread(root, descendants);
    assert_eq!(first, second);
    assert_eq!(ids(&first), vec!["1", "2", "3", "5"]);
}

#[test]
fn descendant_without_reply_target_is_left_out() {
    let root = post("1", "A", None);
    let descendants = vec![
        post("2", "A", None),
        post("3", "A", Some("1")),
        post("4", "A", None),
        post("5", "A", Some("3")),
    ];
    let thread = reconstruct_thread(root, descendants);
    assert_eq!(ids(&thread), vec!["1", "3", "5"]);
}

#[test]
fn only_malformed_descendants_leave_the_root_alone() {
    let root = post("1", "A", None);
    let descendants = vec![post("2", "A", None), post("3", "B", None)];
    let thread = reconstruct_thread(root.clone(), descendants);
    assert_eq!(thread, vec![root]);
}

#[test]
fn equal_descendants_are_all_kept() {
    let root = post("1", "A", None);
    let descendants = vec![post("2", "A", Some("1")), post("2", "A", Some("1"))];
    let thread = reconstruct_thread(root, descendants);
    assert_eq!(ids(&thread), vec!["1", "2", "2"]);
}

#[test]
fn reply_to_itself_ends_the_thread() {
    let root = post("1", "A", None);
    let descendants = vec![post("2", "A", Some("1")), post("3", "A", Some("3"))];
    let thread = reconstruct_thread(root, descendants);
    assert_eq!(ids(&thread), vec!["1", "2"]);
}

#[test]
fn identifiers_are_compared_as_text() {
    let root = post("01", "A", None);
    let descendants = vec![post("2", "A", Some("1")), post("3", "a", Some("01"))];
    let thread = reconstruct_thread(root, descendants);
    assert_eq!(ids(&thread), vec!["01"]);
}

#[test]
fn continuation_needs_author_and_target() {
    let author = "A".to_string();
    let target = "1".to_string();
    assert!(is_continuation(&post("2", "A", Some("1")), &author, &target));
    assert!(!is_continuation(&post("2", "B", Some("1")), &author, &target));
    assert!(!is_continuation(&post("2", "A", Some("7")), &author, &target));
    assert!(!is_continuation(&post("2", "A", None), &author, &target));
    assert!(!is_continuation(&post("2", "B", None), &author, &target));
}

#[test]
fn partition_keeps_order_on_both_sides() {
    let pool = vec![
        post("2", "B", Some("1")),
        post("3", "A", Some("1")),
        post("4", "A", None),
        post("5", "A", Some("1")),
        post("6", "A", Some("3")),
    ];
    let (matched, unmatched) = partition_replies(pool, &"A".to_string(), &"1".to_string());
    assert_eq!(ids(&matched), vec!["3", "5"]);
    assert_eq!(ids(&unmatched), vec!["2", "4", "6"]);
}

#[test]
fn partition_of_nothing_is_empty() {
    let (matched, unmatched) = partition_replies(Vec::new(), &"A".to_string(), &"1".to_string());
    assert!(matched.is_empty());
    assert!(unmatched.is_empty());
}

#[test]
fn thread_is_no_longer_than_root_and_descendants() {
    let root = post("1", "A", None);
    let descendants = vec![
        post("2", "A", Some("1")),
        post("3", "A", Some("2")),
        post("4", "A", Some("3")),
    ];
    let thread = reconstruct_thread(root, descendants);
    assert_eq!(thread.len(), 4);
}

#[test]
fn thread_rebuilt_from_its_own_posts_is_the_same() {
    let root = post("1", "A", None);
    let descendants = vec![
        post("6", "A", Some("5")),
        post("2", "A", Some("1")),
        post("7", "B", Some("1")),
        post("3", "A", Some("1")),
        post("4", "A", Some("2")),
        post("5", "A", Some("3")),
    ];
    let thread = reconstruct_thread(root.clone(), descendants);
    assert_eq!(ids(&thread), vec!["1", "2", "3", "5", "6"]);
    let again = reconstruct_thread(root, thread[1..].to_vec());
    assert_eq!(again, thread);
}

#[test]
fn every_post_behind_the_root_is_by_its_author_and_a_reply() {
    let root = post("1", "A", None);
    let descendants = vec![
        post("2", "A", Some("1")),
        post("3", "B", Some("2")),
        post("4", "A", None),
        post("5", "A", Some("2")),
        post("6", "A", Some("5")),
    ];
    let thread = reconstruct_thread(root, descendants);
    assert_eq!(ids(&thread), vec!["1", "2", "5", "6"]);
    for i in 1..thread.len() {
        assert_eq!(thread[i].account.id, "A");
        assert_eq!(thread[i].in_reply_to_id.as_deref(), Some(thread[i - 1].id.as_str()));
    }
}
