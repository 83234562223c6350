use ponged::auth::{Auth, ModRole, Moderators};
use ponged::http::{
    answer_login, asked_response, body_text, clear_cookie_header, cookie_token, decodable,
    form_field, head_state, head_text, parse_head, revoke_id, route_request, score_path,
    set_cookie_header, url_decode, Asked, HeadState, HttpResp, Routed,
};
use ponged::json::err_json;
use ponged::moderation::HttpCmd;
use ponged::pages::{escape, login_page, monitor_page, LOGIN_HTML, MONITOR_HTML};

#[test]
fn login_form_decoding() {
    assert_eq!(url_decode("a+b%20c%24"), "a b c$");
    assert_eq!(
        form_field("username=caro%2B1&password=se%C3%B1a", "username").as_deref(),
        Some("caro+1")
    );
    assert_eq!(
        form_field("username=caro%2B1&password=se%C3%B1a", "password").as_deref(),
        Some("seña")
    );
    assert_eq!(cookie_token("other=1; pong_mod=abc123; x=2").as_deref(), Some("abc123"));
    assert_eq!(cookie_token("pong_mod=").as_deref(), Some(""));
    assert_eq!(cookie_token("nomod=1"), None);
}

#[test]
fn escapes_that_are_none_stay() {
    assert_eq!(url_decode("100%"), "100%");
    assert_eq!(url_decode("%4"), "%4");
    assert_eq!(url_decode("%zz1"), "%zz1");
    assert_eq!(url_decode("%+fx"), "\u{f}x");
    assert_eq!(url_decode("%ff"), "\u{fffd}");
    assert!(decodable("%é"));
    assert!(!decodable("%aé"));
    assert!(decodable("ñ%41ñ"));
    assert_eq!(form_field("a&b=1&b=2", "b").as_deref(), Some("1"));
    assert_eq!(form_field("a&b=1", "a"), None);
}

#[test]
fn cookies_and_paths() {
    assert_eq!(cookie_token(" PONG_MOD = tok ;x").as_deref(), Some("tok"));
    assert_eq!(
        set_cookie_header("tok"),
        "pong_mod=tok; HttpOnly; SameSite=Strict; Path=/; Max-Age=28800"
    );
    assert_eq!(
        clear_cookie_header(),
        "pong_mod=; HttpOnly; SameSite=Strict; Path=/; Max-Age=0"
    );
    assert_eq!(revoke_id("/api/matches/12/revoke"), Some(12));
    assert_eq!(revoke_id("/api/matches/+12/revoke"), Some(12));
    assert_eq!(revoke_id("/api/matches//revoke"), None);
    assert_eq!(revoke_id("/api/matches/18446744073709551616/revoke"), None);
    assert_eq!(score_path("/api/matches/7/score"), Some(7));
    assert_eq!(score_path("/api/matches/7/revoke"), None);
}

#[test]
fn heads_are_found_and_read() {
    assert_eq!(head_state(&b"GET / HTTP/1.1\r\n".to_vec()), HeadState::Partial);
    assert_eq!(head_state(&vec![b'x'; 65_537]), HeadState::TooLong);
    let raw = b"POST /login?x=1 HTTP/1.1\r\nCONTENT-LENGTH: 3 \r\nCookie: pong_mod=t\r\n\r\nabcdef";
    let raw = raw.to_vec();
    let end = match head_state(&raw) {
        HeadState::Complete(end) => end,
        other => panic!("unexpected {other:?}"),
    };
    let head = parse_head(&head_text(&raw, end));
    assert_eq!((head.method.as_str(), head.path.as_str()), ("POST", "/login?x=1"));
    assert_eq!(head.cookie.as_deref(), Some("t"));
    assert_eq!(head.content_length, 3);
    let body = raw[end + 4..].to_vec();
    assert_eq!(body_text(&body, 3), "abc");
    assert_eq!(body_text(&body, 30), "abcdef");
    let empty = parse_head("");
    assert_eq!((empty.method.as_str(), empty.path.as_str()), ("", "/"));
    assert_eq!(empty.content_length, 0);
    assert!(empty.cookie.is_none());
}

#[test]
fn answers_go_over_the_wire() {
    let mut r = HttpResp::html(200, "señal".to_string());
    r.add_header("X", "y".to_string());
    assert_eq!(
        r.to_text(),
        "HTTP/1.1 200\r\nContent-Type: text/html; charset=utf-8\r\nContent-Length: 6\r\n\
         Cache-Control: no-store\r\nConnection: close\r\nX: y\r\n\r\nseñal"
    );
    let r = HttpResp::redirect("/login");
    assert_eq!(r.status, 302);
    assert_eq!(r.headers, vec![("Location".to_string(), "/login".to_string())]);
    assert_eq!(HttpResp::json(404, String::new()).content_type, "application/json; charset=utf-8");
}

fn error_of(r: &HttpResp) -> String {
    let v: serde_json::Value = serde_json::from_str(&r.body).unwrap();
    assert_eq!(v["ok"], false);
    v["error"].as_str().unwrap().to_string()
}

#[test]
fn asking_the_gateway_is_answered() {
    let r = asked_response(Asked::Busy);
    assert_eq!((r.status, error_of(&r).as_str()), (503, "gateway ocupado"));
    let r = asked_response(Asked::TimedOut);
    assert_eq!((r.status, error_of(&r).as_str()), (504, "el gateway no respondió"));
    let r = asked_response(Asked::Answered(Err("no \"va\"".to_string())));
    assert_eq!((r.status, error_of(&r).as_str()), (409, "no \"va\""));
    let r = asked_response(Asked::Answered(Ok("{}".to_string())));
    assert_eq!((r.status, r.body.as_str()), (200, "{}"));
    let v: serde_json::Value = serde_json::from_str(&err_json("á\n")).unwrap();
    assert_eq!(v["error"], "á\n");
}

fn go(auth: &mut Auth, method: &str, path: &str, cookie: Option<&String>, body: &str) -> Routed {
    route_request(auth, method, path, cookie, body, 5)
}

fn respond(r: Routed) -> HttpResp {
    match r {
        Routed::Respond(r) => r,
        _ => panic!("not answered at once"),
    }
}

fn session(auth: &mut Auth, role: ModRole) -> String {
    let mut table = Moderators::new();
    table.set_moderator_salted("ana", "clave", role, b"sal").unwrap();
    auth.login(&table, "ana", "clave", 5).unwrap()
}

#[test]
fn strangers_are_sent_to_the_login() {
    let mut auth = Auth::new();
    let r = respond(go(&mut auth, "GET", "/", None, ""));
    assert_eq!(r.headers[0].1, "/login");
    let r = respond(go(&mut auth, "GET", "/login", None, ""));
    assert_eq!((r.status, r.body.contains("incorrectos")), (200, false));
    let r = respond(go(&mut auth, "GET", "/login?error=1", None, ""));
    assert!(r.body.contains("incorrectos"));
    for (method, path) in [("GET", "/api/matches"), ("POST", "/api/matches/1/revoke"), ("GET", "/api/moderators")] {
        let r = respond(go(&mut auth, method, path, None, ""));
        assert_eq!((r.status, error_of(&r).as_str()), (401, "no autenticado"));
    }
    let r = respond(go(&mut auth, "GET", "/nada", None, ""));
    assert_eq!((r.status, error_of(&r).as_str()), (404, "ruta no encontrada"));
    let r = respond(go(&mut auth, "PUT", "/login", None, ""));
    assert_eq!(r.status, 404);
}

#[test]
fn moderators_reach_the_gateway() {
    let mut auth = Auth::new();
    let t = session(&mut auth, ModRole::User);
    let t = Some(&t);
    let r = respond(go(&mut auth, "GET", "/index.html", t, ""));
    assert_eq!(r.status, 200);
    assert!(r.body.contains("ana · <a href=\"/logout\">"));
    let r = respond(go(&mut auth, "GET", "/login", t, ""));
    assert_eq!(r.headers[0].1, "/");
    assert!(matches!(go(&mut auth, "GET", "/api/matches", t, ""), Routed::Ask(HttpCmd::List)));
    assert!(matches!(
        go(&mut auth, "POST", "/api/matches/3/revoke", t, ""),
        Routed::Ask(HttpCmd::Revoke { id: 3 })
    ));
    assert!(matches!(
        go(&mut auth, "POST", "/api/matches/3/score", t, "score_a=5&score_b=%34"),
        Routed::Ask(HttpCmd::Edit { id: 3, score_a: 5, score_b: 4 })
    ));
    let r = respond(go(&mut auth, "POST", "/api/matches/3/score", t, "score_b=4"));
    assert_eq!((r.status, error_of(&r).as_str()), (400, "campo 'score_a' inválido"));
    let r = respond(go(&mut auth, "POST", "/api/matches/3/score", t, "score_a=4&score_b=x"));
    assert_eq!((r.status, error_of(&r).as_str()), (400, "campo 'score_b' inválido"));
    let r = respond(go(&mut auth, "POST", "/api/matches/3/score", t, "score_a=26&score_b=1"));
    assert_eq!(error_of(&r), "marcador inválido (permitido 0..=25)");
    assert!(matches!(
        go(&mut auth, "POST", "/api/matches/3/score", t, "score_a=%aé&score_b=1"),
        Routed::Dropped
    ));
    let r = respond(go(&mut auth, "POST", "/otra", t, ""));
    assert_eq!(r.status, 404);
    let r = respond(go(&mut auth, "GET", "/api/moderators", t, ""));
    assert_eq!((r.status, error_of(&r).as_str()), (403, "requiere el rol admin"));
    let r = respond(go(&mut auth, "GET", "/logout", t, ""));
    assert_eq!(r.headers[1].0, "Set-Cookie");
    let r = respond(go(&mut auth, "GET", "/api/matches", t, ""));
    assert_eq!(r.status, 401);
}

#[test]
fn administrators_pass_the_role_check() {
    let mut auth = Auth::new();
    let t = session(&mut auth, ModRole::Admin);
    let r = respond(go(&mut auth, "GET", "/api/moderators", Some(&t), ""));
    assert_eq!(r.status, 404);
}

#[test]
fn logging_in_sets_the_cookie() {
    let mut auth = Auth::new();
    let mut table = Moderators::new();
    table.set_moderator_salted("ana", "clave", ModRole::User, b"sal").unwrap();
    let (username, password) =
        match go(&mut auth, "POST", "/login", None, "username=Ana&password=clave") {
            Routed::Login { username, password } => (username, password),
            _ => panic!("no login"),
        };
    assert_eq!((username.as_str(), password.as_str()), ("Ana", "clave"));
    let r = answer_login(&mut auth, &table, &username, &password, 5);
    assert_eq!(r.headers[0].1, "/");
    let cookie = r.headers[1].1.split(';').next().unwrap().to_string();
    let token = cookie_token(&cookie).unwrap();
    assert_eq!(auth.who(Some(&token), 6).unwrap().username, "ana");
    let r = answer_login(&mut auth, &table, &username, "otra", 5);
    assert_eq!(r.headers[0].1, "/login?error=1");
    assert!(matches!(
        go(&mut auth, "POST", "/login", None, "username=%aé"),
        Routed::Dropped
    ));
}

#[test]
fn pages_are_filled_in() {
    assert_eq!(monitor_page("ana"), MONITOR_HTML.replace("%MODERADOR%", "ana"));
    let page = monitor_page("<i>x</i>");
    assert!(page.contains("&lt;i&gt;x&lt;/i&gt;"));
    assert!(!page.contains("<i>x</i>"));
    assert_eq!(escape("a & \"b\" 'c' <d>"), "a &amp; &quot;b&quot; &#39;c&#39; &lt;d&gt;");
    assert_eq!(escape(""), "");
    assert_eq!(escape("ñandú"), "ñandú");
    assert_eq!(login_page(false), LOGIN_HTML.replace("%ERROR%", ""));
    assert!(login_page(true).contains(r#"<p class="err">Usuario o contraseña incorrectos.</p>"#));
}
