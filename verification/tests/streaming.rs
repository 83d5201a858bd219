use asset_canister::auth::user::Superusers;
use asset_canister::controllers::file::{create_file, put_chunk};
use asset_canister::controllers::http::{
    build_token, continue_from_route, continue_streaming_file, extract_route, http_request,
    http_request_streaming_callback, route_from_lowercase, start_streaming_file, HttpRequest,
    HttpResponse, Route, StreamingStrategy, Token,
};
use asset_canister::database::file::Deployment;
use asset_canister::identity::Identity;
use asset_canister::models::file::FileType;
use asset_canister::{init, CallContext, Canister};

fn canister_id() -> Identity {
    Identity::from_slice(&[0, 0, 0, 0, 0, 0, 0, 7, 1, 1]).unwrap()
}

fn alice() -> Identity {
    Identity::from_slice(&[10, 1]).unwrap()
}

fn fresh() -> Canister {
    init(Deployment { canister: canister_id(), local: false }, Superusers { names: vec![] })
}

fn ctx(now: u64) -> CallContext {
    CallContext { caller: alice(), now, stable_memory_size: 0 }
}

fn with_chunks(kind: &str, declared: u64, chunks: &[&[u8]]) -> Canister {
    let mut c = fresh();
    let name = String::from("f");
    create_file(&mut c, &ctx(0), chunks[0].to_vec(), name, declared, String::from(kind)).unwrap();
    for (i, data) in chunks.iter().enumerate().skip(1) {
        put_chunk(&mut c, &ctx(i as u64), 0, data.to_vec(), i as u64).unwrap();
    }
    c
}

fn token_of(response: HttpResponse) -> Option<Token> {
    match response.streaming_strategy {
        Some(StreamingStrategy::Callback { callback, token }) => {
            assert!(callback.principal == canister_id());
            assert_eq!(callback.method, "http_request_streaming_callback");
            Some(token)
        }
        None => None,
    }
}

#[test]
fn routes_lead_to_files() {
    assert_eq!(extract_route("/image/12"), Route::File(12));
    assert_eq!(extract_route("video/0"), Route::File(0));
    assert_eq!(extract_route("///image/7///"), Route::File(7));
    assert_eq!(extract_route("image/7/more/segments"), Route::File(7));
    assert_eq!(extract_route("image/+7"), Route::File(7));
    assert_eq!(extract_route("image/007"), Route::File(7));
    assert_eq!(extract_route("image/18446744073709551615"), Route::File(u64::MAX));
}

#[test]
fn routes_do_not_mind_the_case_of_letters() {
    assert_eq!(extract_route("/IMAGE/12"), Route::File(12));
    assert_eq!(extract_route("/Video/3"), Route::File(3));
    assert_eq!(extract_route("/vIdEo/3/"), Route::File(3));
}

#[test]
fn other_paths_lead_nowhere() {
    assert_eq!(extract_route(""), Route::Other);
    assert_eq!(extract_route("/"), Route::Other);
    assert_eq!(extract_route("////"), Route::Other);
    assert_eq!(extract_route("image"), Route::Other);
    assert_eq!(extract_route("/image/"), Route::Other);
    assert_eq!(extract_route("image//7"), Route::Other);
    assert_eq!(extract_route("image/abc"), Route::Other);
    assert_eq!(extract_route("image/-1"), Route::Other);
    assert_eq!(extract_route("image/1.5"), Route::Other);
    assert_eq!(extract_route("image/18446744073709551616"), Route::Other);
    assert_eq!(extract_route("images/1"), Route::Other);
    assert_eq!(extract_route("audio/1"), Route::Other);
    assert_eq!(extract_route("x/image/1"), Route::Other);
    assert_eq!(extract_route(" image/1"), Route::Other);
    assert_eq!(extract_route("\u{130}mage/1"), Route::Other);
}

#[test]
fn lowercase_routes_are_read_as_they_are() {
    let read = |s: &str| route_from_lowercase(&s.chars().collect::<Vec<char>>());
    assert_eq!(read("image/5"), Route::File(5));
    assert_eq!(read("IMAGE/5"), Route::Other);
    assert_eq!(read("/image/5"), Route::Other);
    assert_eq!(read("video/5/"), Route::File(5));
}

#[test]
fn tokens_name_kind_number_and_place() {
    let t = build_token(FileType::MOV, 41, 2);
    assert_eq!(t.key, "video/41");
    assert_eq!(t.content_encoding, "");
    assert_eq!(t.index, 2);
    assert_eq!(t.sha256, None);
    assert_eq!(build_token(FileType::WEBP, 0, 0).key, "image/0");
    assert_eq!(extract_route(&build_token(FileType::PNG, u64::MAX, 1).key), Route::File(u64::MAX));
}

#[test]
fn a_single_chunk_file_is_served_without_a_token() {
    let c = with_chunks("image/gif", 1, &[&[1, 2, 3]]);
    let r = start_streaming_file(&c, 0);
    assert_eq!(r.status_code, 200);
    assert_eq!(r.body, vec![1, 2, 3]);
    assert_eq!(r.headers.len(), 3);
    assert_eq!(r.headers[0].0, "Content-Type");
    assert_eq!(r.headers[0].1, "image/gif");
    assert_eq!(r.headers[1].0, "Cache-Control");
    assert_eq!(r.headers[1].1, "public, max-age=100000000, immutable");
    assert_eq!(r.headers[2].0, "Access-Control-Allow-Origin");
    assert_eq!(r.headers[2].1, "*");
    assert!(token_of(r).is_none());
}

#[test]
fn a_three_chunk_file_is_served_in_order() {
    let c = with_chunks("video/mp4", 3, &[&[0], &[1, 1], &[2, 2, 2]]);
    let first = start_streaming_file(&c, 0);
    assert_eq!(first.status_code, 200);
    assert_eq!(first.body, vec![0]);
    let token = token_of(first).unwrap();
    assert_eq!(token.key, "video/0");
    assert_eq!(token.index, 1);
    let second = continue_streaming_file(&c, token);
    assert_eq!(second.body, vec![1, 1]);
    let token = second.token.unwrap();
    assert_eq!(token.key, "video/0");
    assert_eq!(token.index, 2);
    let third = http_request_streaming_callback(&c, token);
    assert_eq!(third.body, vec![2, 2, 2]);
    let token = third.token.unwrap();
    assert_eq!(token.index, 3);
    let done = continue_streaming_file(&c, token);
    assert!(done.body.is_empty());
    assert!(done.token.is_none());
}

#[test]
fn no_token_follows_a_place_beyond_the_declared_count() {
    let mut c = with_chunks("image/png", 2, &[&[0]]);
    put_chunk(&mut c, &ctx(1), 0, vec![5], 3).unwrap();
    let at_one = continue_streaming_file(&c, build_token(FileType::PNG, 0, 1));
    assert!(at_one.body.is_empty());
    assert!(at_one.token.is_none());
    let at_three = continue_streaming_file(&c, build_token(FileType::PNG, 0, 3));
    assert_eq!(at_three.body, vec![5]);
    assert!(at_three.token.is_none());
}

#[test]
fn a_token_follows_the_place_of_the_declared_count() {
    let mut c = with_chunks("image/png", 2, &[&[0]]);
    put_chunk(&mut c, &ctx(1), 0, vec![5], 2).unwrap();
    let at_two = continue_streaming_file(&c, build_token(FileType::PNG, 0, 2));
    assert_eq!(at_two.body, vec![5]);
    let token = at_two.token.unwrap();
    assert_eq!(token.key, "image/0");
    assert_eq!(token.index, 3);
}

#[test]
fn a_reading_is_done_where_nothing_is_found() {
    let c = with_chunks("image/png", 2, &[&[0], &[1]]);
    for token in [
        build_token(FileType::PNG, 0, 7),
        build_token(FileType::PNG, 9, 0),
        Token {
            key: String::from("nowhere"),
            content_encoding: String::new(),
            index: 0,
            sha256: None,
        },
    ] {
        let r = continue_streaming_file(&c, token);
        assert!(r.body.is_empty());
        assert!(r.token.is_none());
    }
    let r = continue_from_route(&c, Route::Other, 0);
    assert!(r.body.is_empty() && r.token.is_none());
    assert_eq!(continue_from_route(&c, Route::File(0), 1).body, vec![1]);
}

#[test]
fn a_token_may_come_back_in_another_case() {
    let c = with_chunks("image/png", 2, &[&[0], &[1]]);
    let token = Token {
        key: String::from("/IMAGE/0/"),
        content_encoding: String::new(),
        index: 1,
        sha256: None,
    };
    assert_eq!(continue_streaming_file(&c, token).body, vec![1]);
}

#[test]
fn requests_are_answered_by_their_path() {
    let c = with_chunks("image/png", 2, &[&[4, 5], &[6]]);
    let request = |url: &str| HttpRequest {
        method: String::from("GET"),
        url: String::from(url),
        headers: vec![(String::from("Accept"), String::from("*/*"))],
        body: vec![],
    };
    let r = http_request(&c, &request("/image/0"));
    assert_eq!(r.status_code, 200);
    assert_eq!(r.body, vec![4, 5]);
    assert_eq!(token_of(r).unwrap().index, 1);
    let r = http_request(&c, &request("/image/1"));
    assert_eq!(r.status_code, 404);
    assert!(r.headers.is_empty() && r.body.is_empty() && r.streaming_strategy.is_none());
    let r = http_request(&c, &request("/about"));
    assert_eq!(r.status_code, 404);
    assert_eq!(request("/x")._header("accept"), Some(&String::from("*/*")));
    assert_eq!(request("/x")._header("ACCEPT"), Some(&String::from("*/*")));
    assert_eq!(request("/x")._header("host"), None);
}

#[test]
fn a_file_without_a_first_chunk_is_not_found() {
    let mut c = with_chunks("image/png", 2, &[&[4, 5], &[6]]);
    asset_canister::database::chunks::remove_chunk(&mut c.db.chunks, 0);
    assert_eq!(start_streaming_file(&c, 0).status_code, 404);
    assert_eq!(continue_streaming_file(&c, build_token(FileType::PNG, 0, 1)).body, vec![6]);
}

#[test]
fn bare_responses() {
    let r = HttpResponse::status_code(204);
    assert_eq!(r.status_code, 204);
    assert!(r.headers.is_empty() && r.body.is_empty() && r.streaming_strategy.is_none());
    assert_eq!(HttpResponse::not_found().status_code, 404);
    assert_eq!(HttpResponse::_gone().status_code, 410);
    let r = HttpResponse::_moved_permanently("/there");
    assert_eq!(r.status_code, 301);
    assert_eq!(r.headers.len(), 1);
    assert_eq!(r.headers[0].0, "Location");
    assert_eq!(r.headers[0].1, "/there");
    let r = HttpResponse::_moved_temporarily("/there", Some(3600));
    assert_eq!(r.status_code, 302);
    assert_eq!(r.headers.len(), 2);
    assert_eq!(r.headers[1].0, "Cache-Control");
    assert_eq!(r.headers[1].1, "public, max-age=3600");
    assert_eq!(HttpResponse::_moved_temporarily("/there", None).headers.len(), 1);
}
