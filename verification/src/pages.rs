//! The two pages of the moderation server.
use vstd::prelude::*;

use crate::text::{chars_of, replace, replace_of};

verus! {

/// The monitor: lists the matches, and lets a moderator take one back or
/// correct its score.
pub const MONITOR_HTML: &'static str = r#"<!doctype html>
<html lang="es">
<head>
<meta charset="utf-8">
<meta name="viewport" content="width=device-width, initial-scale=1">
<title>Pong Gateway · Monitor de partidas</title>
<style>
  :root { color-scheme: light; }
  * { box-sizing: border-box; }
  body { margin: 0; font-family: ui-monospace, "Cascadia Mono", "DejaVu Sans Mono", Menlo, Consolas, monospace; background: #ffffff; color: #000; }
  header { display: flex; align-items: baseline; gap: 14px; padding: 18px 24px; border-bottom: 1px solid #000; flex-wrap: wrap; }
  h1 { font-size: 20px; margin: 0; letter-spacing: .5px; }
  header p { color: #000; opacity: .6; margin: 0; font-size: 12px; }
  header .mod { margin-left: auto; display: flex; align-items: center; gap: 8px; }
  header .mod a { color: #000; text-decoration: none; font-size: 12px; border-bottom: 1px solid #000; }
  main { padding: 18px 24px; max-width: 1200px; margin: 0 auto; }
  .stats { display: flex; gap: 12px; margin: 0 0 16px; flex-wrap: wrap; }
  .stat { background: #fff; border: 1px solid #000; padding: 10px 16px; min-width: 150px; }
  .stat b { display: block; font-size: 22px; }
  .stat span { color: #000; font-size: 11px; text-transform: uppercase; letter-spacing: .5px; opacity: .6; }
  table { width: 100%; border-collapse: collapse; border: 1px solid #000; }
  th, td { padding: 10px 12px; text-align: left; font-size: 12px; border-bottom: 1px solid #000; vertical-align: top; }
  th { background: #000; color: #fff; text-transform: uppercase; font-size: 11px; letter-spacing: 1px; font-weight: 700; }
  .badge { display: inline-block; padding: 2px 8px; font-size: 10px; font-weight: 700; letter-spacing: .5px; text-transform: uppercase; }
  .played { color: #000; border: 1px solid #000; }
  .pending { color: #000; border: 1px dashed #000; }
  .revoked { color: #000; text-decoration: line-through; border: 1px solid #000; opacity: .5; }
  .edited { color: #fff; background: #000; border: 1px solid #000; }
  input.score { width: 46px; background: #fff; border: 1px solid #000; color: #000;
                padding: 5px 6px; font-size: 13px; text-align: center; }
  input.score:focus { outline: none; border-width: 2px; }
  button.ghost { background: #fff; color: #000; border: 1px solid #000; }
  button.ghost:hover { background: #000; color: #fff; }
  button { background: #000; color: #fff; border: 1px solid #000; padding: 6px 11px; font-size: 12px; cursor: pointer; }
  button:hover { background: #fff; color: #000; }
  button:disabled { background: #fff; color: #999; border-color: #999; cursor: not-allowed; }
  .vs { text-align: center; white-space: nowrap; font-weight: 700; }
  .who { font-weight: 700; }
  .meta { font-size: 11px; opacity: .6; }
  .sub { font-size: 11px; opacity: .5; }
  #toast { position: fixed; bottom: 16px; right: 16px; background: #000; color: #fff; padding: 10px 14px; font-size: 12px; opacity: 0; transition: opacity .2s; max-width: 420px; }
  #toast.show { opacity: 1; }
</style>
</head>
<body>
<header>
  <h1>PONG GATEWAY · Monitor de partidas</h1>
  <p id="stamp">cargando…</p>
  <p class="mod">%MODERADOR% · <a href="/logout">salir</a></p>
</header>
<main>
  <div class="stats">
    <div class="stat"><b id="stTotal">–</b><span>partidas</span></div>
    <div class="stat"><b id="stPlayed">–</b><span>jugadas</span></div>
    <div class="stat"><b id="stPending">–</b><span>pendientes</span></div>
    <div class="stat"><b id="stRevoked">–</b><span>revocadas</span></div>
  </div>
  <table>
    <thead><tr><th>#</th><th>Fecha</th><th>Jugador A</th><th>Marcador</th><th>Jugador B</th><th>Estado</th><th>Moderación</th></tr></thead>
    <tbody id="rows"></tbody>
  </table>
</main>
<div id="toast"></div>
<script>
const esc = s => String(s ?? "").replace(/[&<>"']/g, c => ({'&':'&amp;','<':'&lt;','>':'&gt;','"':'&quot;',"'":'&#39;'}[c]));
const short = id => id.length <= 20 ? id : id.slice(0, 10) + '…' + id.slice(-4);

async function api(path, method) {
  try {
    const r = await fetch(path, { method: method || 'GET' });
    if (r.status === 401) { location.href = '/login'; return { ok: false, body: {} }; }
    return { ok: r.ok, body: await r.json() };
  } catch (e) {
    return { ok: false, body: { error: String(e) } };
  }
}

let busy = null;
let editMode = null;

function badge(m) {
  if (m.status === 'revoked') return '<span class="badge revoked">revocada</span>';
  if (m.status === 'pending') return '<span class="badge pending">pendiente</span>';
  const edited = m.edited_at ? ' <span class="badge edited">editada</span>' : '';
  return '<span class="badge played">jugada</span>' + edited;
}

function scoreForm(m) {
  return '<input id="sa' + m.id + '" class="score" type="number" min="0" max="' + 25 + '" value="' + m.score_a + '">'
    + ' : '
    + '<input id="sb' + m.id + '" class="score" type="number" min="0" max="' + 25 + '" value="' + m.score_b + '"> '
    + '<input id="ed' + m.id + '" type="hidden" value="' + m.id + '">'
    + '<button onclick="editScore(' + m.id + ')">Guardar</button> '
    + '<button class="ghost" onclick="editMode=null; refresh()" title="Cancelar">✕</button>';
}

function actionCell(m) {
  if (m.status === 'revoked') return '<span class="sub">revocada</span>';
  if (m.status === 'pending') return '<span class="sub">—</span>';
  if (editMode === m.id) return scoreForm(m);
  return '<button onclick="editMode=' + m.id + '; refresh()">Editar marcador</button> '
    + '<button onclick="revoke(' + m.id + ', this)">Revocar</button>';
}

async function refresh() {
  const { ok, body } = await api('/api/matches');
  if (!ok) { document.getElementById('stamp').textContent = 'error: ' + (body.error || '?'); return; }
  const list = body.matches || [];
  const count = s => list.filter(m => m.status === s).length;
  document.getElementById('stTotal').textContent = list.length;
  document.getElementById('stPlayed').textContent = count('played');
  document.getElementById('stPending').textContent = count('pending');
  document.getElementById('stRevoked').textContent = count('revoked');
  document.getElementById('stamp').textContent =
    'actualizado ' + new Date().toLocaleTimeString() + ' · ' + list.length + ' partidas';
  const rows = document.getElementById('rows');
  if (!list.length) {
    rows.innerHTML = '<tr><td colspan="7" class="sub">Aún no hay partidas reportadas a este gateway.</td></tr>';
    return;
  }
  rows.innerHTML = list.map(m => {
    const delta = (b, a) => a === b ? esc(b) : esc(b) + ' → ' + esc(a);
    return '<tr>'
      + '<td>' + m.id + '</td>'
      + '<td class="sub">' + esc(m.created_at) + '</td>'
      + '<td><span class="who">' + esc(m.username_a || short(m.player_a)) + '</span><br>'
      +   '<span class="meta">ELO ' + delta(m.rating_a_before, m.rating_a_after) + '</span> <span class="sub">' + short(m.player_a) + '</span></td>'
      + '<td class="vs"><b>' + m.score_a + '</b> : <b>' + m.score_b + '</b></td>'
      + '<td><span class="who">' + esc(m.username_b || short(m.player_b)) + '</span><br>'
      +   '<span class="meta">ELO ' + delta(m.rating_b_before, m.rating_b_after) + '</span> <span class="sub">' + short(m.player_b) + '</span></td>'
      + '<td>' + badge(m) + '</td>'
      + '<td>' + actionCell(m) + '</td>'
      + '</tr>';
  }).join('');
}

function toast(msg) {
  const t = document.getElementById('toast');
  t.textContent = msg;
  t.classList.add('show');
  clearTimeout(t._timer);
  t._timer = setTimeout(() => t.classList.remove('show'), 5000);
}

async function revoke(id, btn) {
  btn.disabled = true;
  const { ok, body } = await api('/api/matches/' + id + '/revoke', 'POST');
  if (ok) {
    toast('Partida #' + id + ' revocada: ELO restaurado en ambos jugadores.');
  } else {
    toast('No se pudo revocar: ' + (body.error || 'vuelve a intentarlo'));
    btn.disabled = false;
  }
  refresh();
}

async function editScore(id) {
  const a = document.getElementById('sa' + id).value;
  const b = document.getElementById('sb' + id).value;
  try {
    const r = await fetch('/api/matches/' + id + '/score', {
      method: 'POST',
      headers: { 'Content-Type': 'application/x-www-form-urlencoded' },
      body: 'score_a=' + encodeURIComponent(a) + '&score_b=' + encodeURIComponent(b)
    });
    if (r.status === 401) { location.href = '/login'; return; }
    const body = await r.json().catch(() => ({}));
    if (r.ok) {
      toast('Marcador #' + id + ' corregido a ' + a + '–' + b + ': ELO recalculado.');
      editMode = null;
    } else {
      toast('No se pudo editar: ' + (body.error || 'vuelve a intentarlo'));
    }
  } catch (e) {
    toast('Error: ' + e);
  }
  refresh();
}

refresh();
setInterval(refresh, 5000);
</script>
</body>
</html>
"#;

/// The form that is shown until a moderator logs in.
pub const LOGIN_HTML: &'static str = r#"<!doctype html>
<html lang="es">
<head>
<meta charset="utf-8">
<meta name="viewport" content="width=device-width, initial-scale=1">
<title>Pong Gateway · Acceso moderador</title>
<style>
  :root { color-scheme: light; }
  * { box-sizing: border-box; }
  body { margin: 0; min-height: 100vh; display: grid; place-items: center;
         font-family: ui-monospace, "Cascadia Mono", "DejaVu Sans Mono", Menlo, Consolas, monospace;
         background: #fff; color: #000; padding: 24px; }
  .card { background: #fff; border: 1px solid #000; padding: 32px; width: 100%; max-width: 360px; }
  h1 { font-size: 18px; margin: 0 0 6px; letter-spacing: .5px; }
  .sub { font-size: 12px; margin: 0 0 20px; opacity: .6; }
  .err { background: #000; color: #fff; font-size: 12px; padding: 9px 12px; margin: 0 0 16px; }
  label { display: block; font-size: 11px; text-transform: uppercase; letter-spacing: .5px; margin: 0 0 14px; opacity: .8; }
  label span { display: block; margin-bottom: 5px; }
  input { width: 100%; background: #fff; border: 1px solid #000; color: #000; padding: 10px 12px; font-size: 14px; }
  input:focus { outline: none; border-width: 2px; }
  button { width: 100%; margin-top: 6px; background: #000; color: #fff; border: 1px solid #000; padding: 11px; font-size: 14px; cursor: pointer; }
  button:hover { background: #fff; color: #000; }
  .foot { margin-top: 18px; font-size: 11px; opacity: .6; text-align: center; }
</style>
</head>
<body>
<main class="card">
  <h1>PONG GATEWAY · Moderación</h1>
  <p class="sub">El monitor de partidas está bloqueado. Inicia sesión con tu cuenta de moderador.</p>
  %ERROR%
  <form method="post" action="/login" autocomplete="off">
    <label><span>Usuario</span><input name="username" required autofocus autocomplete="username"></label>
    <label><span>Contraseña</span><input type="password" name="password" required autocomplete="current-password"></label>
    <button>Entrar</button>
  </form>
  <p class="foot">Las cuentas de moderador se crean en el gateway con <code>--add-moderator &lt;usuario&gt;</code>.</p>
</main>
</body>
</html>
"#;

/// What a character is written as in a page: itself, or the entity of one that
/// would be read as markup. The page's own script writes names the same way.
pub open spec fn entity_of(c: char) -> Seq<char> {
    if c == '&' {
        "&amp;"@
    } else if c == '<' {
        "&lt;"@
    } else if c == '>' {
        "&gt;"@
    } else if c == '"' {
        "&quot;"@
    } else if c == '\'' {
        "&#39;"@
    } else {
        seq![c]
    }
}

/// A text as it is written in a page.
pub open spec fn escaped(s: Seq<char>) -> Seq<char>
    decreases s.len(),
{
    if s.len() == 0 {
        Seq::empty()
    } else {
        escaped(s.drop_last()) + entity_of(s.last())
    }
}

/// Whether a page would read the character as the start or the end of markup.
pub open spec fn is_markup(c: char) -> bool {
    c == '<' || c == '>' || c == '"' || c == '\''
}

/// Nothing in a text that is written in a page reads as markup.
pub proof fn escaped_text_is_plain(s: Seq<char>, i: int)
    requires
        0 <= i < escaped(s).len(),
    ensures
        !is_markup(escaped(s)[i]),
    decreases s.len(),
{
    let head = escaped(s.drop_last());
    if i < head.len() {
        escaped_text_is_plain(s.drop_last(), i);
    } else {
        reveal_strlit("&amp;");
        reveal_strlit("&lt;");
        reveal_strlit("&gt;");
        reveal_strlit("&quot;");
        reveal_strlit("&#39;");
        assert(escaped(s)[i] == entity_of(s.last())[i - head.len()]);
    }
}

/// A text without special characters is written as it is.
pub proof fn plain_text_stays(s: Seq<char>)
    requires
        forall|i: int| 0 <= i < s.len() ==> !is_markup(#[trigger] s[i]) && s[i] != '&',
    ensures
        escaped(s) == s,
    decreases s.len(),
{
    if s.len() > 0 {
        let head = s.drop_last();
        assert forall|i: int| 0 <= i < head.len() implies !is_markup(#[trigger] head[i]) && head[i]
            != '&' by {
            assert(head[i] == s[i]);
        }
        plain_text_stays(head);
        assert(head + seq![s.last()] =~= s);
    }
}

/// Writes a text for a page.
pub fn escape(text: &str) -> (r: String)
    ensures
        r@ == escaped(text@),
{
    let v = chars_of(text);
    let mut out = String::new();
    let mut i: usize = 0;
    assert(v@.take(0) =~= Seq::empty());
    while i < v.len()
        invariant
            0 <= i <= v.len(),
            v@ == text@,
            out@ == escaped(v@.take(i as int)),
        decreases v.len() - i,
    {
        let c = v[i];
        let ghost before = out@;
        proof {
            assert(v@.take(i + 1).drop_last() =~= v@.take(i as int));
            assert(v@.take(i + 1).last() == c);
        }
        if c == '&' {
            out.append("&amp;");
        } else if c == '<' {
            out.append("&lt;");
        } else if c == '>' {
            out.append("&gt;");
        } else if c == '"' {
            out.append("&quot;");
        } else if c == '\'' {
            out.append("&#39;");
        } else {
            out.push(c);
        }
        assert(out@ =~= before + entity_of(c));
        i += 1;
    }
    assert(v@.take(v@.len() as int) =~= v@);
    out
}

/// The monitor for a moderator, whose name is text, never markup.
pub open spec fn monitor_of(moderator: Seq<char>) -> Seq<char> {
    replace_of(MONITOR_HTML@, "%MODERADOR%"@, escaped(moderator))
}

/// The line above the form after a failed attempt.
pub const LOGIN_ERROR: &'static str =
    r##"<p class="err">Usuario o contraseña incorrectos.</p>"##;

/// The login form.
pub open spec fn login_of(with_error: bool) -> Seq<char> {
    replace_of(
        LOGIN_HTML@,
        "%ERROR%"@,
        if with_error {
            LOGIN_ERROR@
        } else {
            ""@
        },
    )
}

/// The monitor page with the name of the moderator.
pub fn monitor_page(moderator: &str) -> (r: String)
    ensures
        r@ == monitor_of(moderator@),
{
    proof {
        reveal_strlit("%MODERADOR%");
    }
    let name = escape(moderator);
    replace(MONITOR_HTML, "%MODERADOR%", name.as_str())
}

/// The login page, with a notice after a failed attempt.
pub fn login_page(with_error: bool) -> (r: String)
    ensures
        r@ == login_of(with_error),
{
    proof {
        reveal_strlit("%ERROR%");
    }
    let notice = if with_error {
        LOGIN_ERROR
    } else {
        ""
    };
    replace(LOGIN_HTML, "%ERROR%", notice)
}

/// Text is escaped character by character: what is markup is written by its
/// entity, and everything else as it is.
pub proof fn texts_are_escaped_by_characters(a: Seq<char>, b: Seq<char>, c: char)
    ensures
        escaped(a + b) == escaped(a) + escaped(b),
        escaped(seq!['&']) == "&amp;"@,
        escaped(seq!['<']) == "&lt;"@,
        escaped(seq!['>']) == "&gt;"@,
        escaped(seq!['"']) == "&quot;"@,
        escaped(seq!['\'']) == "&#39;"@,
        c != '&' && c != '<' && c != '>' && c != '"' && c != '\'' ==> escaped(seq![c]) == seq![c],
    decreases b.len(),
{
    reveal_with_fuel(escaped, 2);
    assert forall|x: char| escaped(#[trigger] seq![x]) == entity_of(x) by {
        assert(seq![x].drop_last() =~= Seq::empty());
        assert(seq![x].last() == x);
        assert(Seq::<char>::empty() + entity_of(x) =~= entity_of(x));
    }
    if b.len() == 0 {
        assert(a + b =~= a);
        assert(escaped(a) + escaped(b) =~= escaped(a));
    } else {
        texts_are_escaped_by_characters(a, b.drop_last(), c);
        assert((a + b).drop_last() =~= a + b.drop_last());
        assert((a + b).last() == b.last());
        assert(escaped(a) + (escaped(b.drop_last()) + entity_of(b.last())) =~= escaped(a) + escaped(
            b.drop_last(),
        ) + entity_of(b.last()));
    }
}

} // verus!
