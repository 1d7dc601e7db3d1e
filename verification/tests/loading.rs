use mastodon_thread::loading::{assemble_thread, check_status, FetchError, ThreadState};
use mastodon_thread::model::{Account, Context, Status};

fn status(id: &str, author: &str, reply_to: Option<&str>) -> Status {
    Status {
        id: id.to_string(),
        in_reply_to_id: reply_to.map(|target| target.to_string()),
        account: Account {
            id: author.to_string(),
            username: author.to_lowercase(),
            display_name: author.to_string(),
        },
        content: format!("<p>{id}</p>"),
    }
}

#[test]
fn codes_from_200_to_299_are_success() {
    assert_eq!(check_status(200), Ok(()));
    assert_eq!(check_status(204), Ok(()));
    assert_eq!(check_status(299), Ok(()));
}

#[test]
fn other_codes_are_network_failures() {
    assert_eq!(check_status(0), Err(FetchError::Network));
    assert_eq!(check_status(199), Err(FetchError::Network));
    assert_eq!(check_status(300), Err(FetchError::Network));
    assert_eq!(check_status(404), Err(FetchError::Network));
    assert_eq!(check_status(500), Err(FetchError::Network));
    assert_eq!(check_status(u16::MAX), Err(FetchError::Network));
}

#[test]
fn fetched_post_is_assembled_into_its_thread() {
    let root = status("1", "A", None);
    let context = Context {
        descendants: vec![
            status("3", "A", Some("2")),
            status("9", "B", Some("1")),
            status("2", "A", Some("1")),
        ],
    };
    let thread = assemble_thread(Ok((root.clone(), context)));
    assert_eq!(
        thread,
        Ok(vec![root, status("2", "A", Some("1")), status("3", "A", Some("2"))])
    );
}

#[test]
fn failed_fetch_is_handed_on() {
    assert_eq!(assemble_thread(Err(FetchError::Network)), Err(FetchError::Network));
    assert_eq!(assemble_thread(Err(FetchError::Decode)), Err(FetchError::Decode));
}

#[test]
fn view_is_loading_until_the_fetch_is_back() {
    assert_eq!(ThreadState::from_progress(None), ThreadState::Loading);
}

#[test]
fn view_is_ready_with_the_thread() {
    let thread = vec![status("1", "A", None), status("2", "A", Some("1"))];
    assert_eq!(ThreadState::from_progress(Some(Ok(thread.clone()))), ThreadState::Ready(thread));
    assert_eq!(ThreadState::from_progress(Some(Ok(Vec::new()))), ThreadState::Ready(Vec::new()));
}

#[test]
fn view_shows_the_failure() {
    assert_eq!(
        ThreadState::from_progress(Some(Err(FetchError::Network))),
        ThreadState::Failed(FetchError::Network)
    );
    assert_eq!(
        ThreadState::from_progress(Some(Err(FetchError::Decode))),
        ThreadState::Failed(FetchError::Decode)
    );
}

#[test]
fn fetch_to_view_end_to_end() {
    let root = status("1", "A", None);
    let context = Context { descendants: vec![status("2", "A", Some("1"))] };
    let state = ThreadState::from_progress(Some(assemble_thread(Ok((root.clone(), context)))));
    assert_eq!(state, ThreadState::Ready(vec![root, status("2", "A", Some("1"))]));
    let state = ThreadState::from_progress(Some(assemble_thread(Err(FetchError::Decode))));
    assert_eq!(state, ThreadState::Failed(FetchError::Decode));
}
