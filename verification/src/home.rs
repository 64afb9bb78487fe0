//! The built-in start pages: a scrollable page with a text field and a link to a second page that
//! links back (offline, for a deterministic first render). Each page names the other's `file://`
//! URL, filled in when the pages are written out.

use vstd::prelude::*;

use crate::text::{replace_all, replaced};

verus! {

/// The start page; `__PAGE2_URL__` stands for the second page's URL.
pub const START_HTML: &'static str = r#"<!doctype html>
<html lang="pt-br"><head><meta charset="utf-8"><style>
  * { margin: 0; box-sizing: border-box; }
  body {
    font-family: system-ui, sans-serif; color: #f5f7ff; padding: 48px;
    background: linear-gradient(135deg, #1e2030 0%, #3a2d5c 50%, #5c2d4d 100%);
  }
  h1 { font-size: 52px; letter-spacing: -1px; }
  h1 span { color: #ff7eb6; }
  p { font-size: 19px; opacity: .85; margin-top: 12px; max-width: 760px; }
  .panel {
    margin-top: 28px; padding: 22px; border-radius: 16px; max-width: 760px;
    background: rgba(255,255,255,.08); border: 1px solid rgba(255,255,255,.18);
  }
  label { display: block; font-weight: 600; margin-bottom: 8px; }
  input {
    width: 100%; padding: 12px 14px; font-size: 16px; border-radius: 10px;
    border: 1px solid rgba(255,255,255,.3); background: rgba(0,0,0,.25); color: #fff;
  }
  a.nav {
    display: inline-block; margin-top: 22px; padding: 12px 18px; border-radius: 10px;
    background: #ff7eb6; color: #1e2030; font-weight: 700; text-decoration: none;
  }
  .spacer { height: 900px; }
  .end { font-size: 22px; font-weight: 700; color: #8cffb4; }
</style></head><body>
  <h1>Based<span>Browser</span> — M2</h1>
  <p>Browser navegável: digite uma URL na barra e tecle Enter; clique/role/digite nesta
     página; use voltar/avancar/recarregar. Esta pagina e rolavel (role ate o fim).</p>
  <div class="panel">
    <label for="t">Teste de teclado — clique e digite aqui:</label>
    <input id="t" type="text" placeholder="o texto digitado deve aparecer">
  </div>
  <a class="nav" href="__PAGE2_URL__">Ir para a Pagina 2 (testar clique + navegacao)</a>
  <div class="spacer"></div>
  <p class="end">Fim da pagina — se voce leu isto rolando, o scroll funciona.</p>
</body></html>
"#;

/// The second page; `__START_URL__` stands for the start page's URL.
pub const PAGE2_HTML: &'static str = r#"<!doctype html>
<html lang="pt-br"><head><meta charset="utf-8"><style>
  * { margin: 0; box-sizing: border-box; }
  body {
    font-family: system-ui, sans-serif; color: #1e2030; padding: 48px;
    background: linear-gradient(135deg, #8cffb4 0%, #7ecbff 100%);
  }
  h1 { font-size: 52px; }
  p { font-size: 19px; margin-top: 12px; max-width: 760px; }
  a.nav {
    display: inline-block; margin-top: 22px; padding: 12px 18px; border-radius: 10px;
    background: #1e2030; color: #fff; font-weight: 700; text-decoration: none;
  }
</style></head><body>
  <h1>Pagina 2</h1>
  <p>Voce navegou via clique num link. Agora teste o botao voltar do chrome
     (deve ficar habilitado) e o recarregar.</p>
  <a class="nav" href="__START_URL__">Voltar para a inicial (ou use o botao voltar)</a>
</body></html>
"#;

pub open spec fn page2_token() -> Seq<char> {
    seq!['_', '_', 'P', 'A', 'G', 'E', '2', '_', 'U', 'R', 'L', '_', '_']
}

pub open spec fn start_token() -> Seq<char> {
    seq!['_', '_', 'S', 'T', 'A', 'R', 'T', '_', 'U', 'R', 'L', '_', '_']
}

/// The start page linking to the second page at `page2_url`.
pub fn start_page(page2_url: &str) -> (html: String)
    ensures
        html@ == replaced(START_HTML@, page2_token(), page2_url@),
{
    proof {
        reveal_strlit("__PAGE2_URL__");
    }
    assert("__PAGE2_URL__"@ =~= page2_token());
    replace_all(START_HTML, "__PAGE2_URL__", page2_url)
}

/// The second page linking back to the start page at `start_url`.
pub fn second_page(start_url: &str) -> (html: String)
    ensures
        html@ == replaced(PAGE2_HTML@, start_token(), start_url@),
{
    proof {
        reveal_strlit("__START_URL__");
    }
    assert("__START_URL__"@ =~= start_token());
    replace_all(PAGE2_HTML, "__START_URL__", start_url)
}

} // verus!
