//! Results of scripts evaluated in the active page: their one-line rendering for the in-app
//! console, and the find-in-page script and its `"index,count"` answer.

use vstd::prelude::*;

use crate::devtools::{char_decimal_value, lemma_decimal_prefix_bound};
use crate::json_text::{json_quoted, json_string_literal};
use crate::text::{replace_all, replaced, trim, trimmed};

verus! {

/// A value handed back by a script evaluated in a page. Numbers are carried as the text the engine's
/// number formatting gives; object members in the order the engine lists them.
#[derive(Debug)]
pub enum JsValue {
    Undefined,
    Null,
    Boolean(bool),
    Number(String),
    String(String),
    Element(String),
    ShadowRoot(String),
    Frame(String),
    Window(String),
    Array(Vec<JsValue>),
    Object(Vec<(String, JsValue)>),
}

pub open spec fn undefined_text() -> Seq<char> {
    seq!['u', 'n', 'd', 'e', 'f', 'i', 'n', 'e', 'd']
}

pub open spec fn null_text() -> Seq<char> {
    seq!['n', 'u', 'l', 'l']
}

pub open spec fn bool_text(b: bool) -> Seq<char> {
    if b {
        seq!['t', 'r', 'u', 'e']
    } else {
        seq!['f', 'a', 'l', 's', 'e']
    }
}

pub open spec fn list_sep() -> Seq<char> {
    seq![',', ' ']
}

/// The console rendering of a script result: scalars as text, DOM references as the engine's
/// opaque id, arrays as `[a, b]`, objects as `{k: v, ...}`.
pub open spec fn js_text(v: JsValue) -> Seq<char>
    decreases v,
{
    match v {
        JsValue::Undefined => undefined_text(),
        JsValue::Null => null_text(),
        JsValue::Boolean(b) => bool_text(b),
        JsValue::Number(n) => n@,
        JsValue::String(s) => s@,
        JsValue::Element(s) => s@,
        JsValue::ShadowRoot(s) => s@,
        JsValue::Frame(s) => s@,
        JsValue::Window(s) => s@,
        JsValue::Array(items) => seq!['['] + js_items_text(items@, items@.len()) + seq![']'],
        JsValue::Object(members) => seq!['{'] + js_members_text(members@, members@.len()) + seq!['}'],
    }
}

/// The first `n` items rendered and joined by `", "`.
pub open spec fn js_items_text(items: Seq<JsValue>, n: nat) -> Seq<char>
    decreases items, n,
{
    if n == 0 || n > items.len() {
        Seq::empty()
    } else if n == 1 {
        js_text(items[0])
    } else {
        js_items_text(items, (n - 1) as nat) + list_sep() + js_text(items[n - 1])
    }
}

/// The first `n` members rendered as `key: value` and joined by `", "`.
pub open spec fn js_members_text(members: Seq<(String, JsValue)>, n: nat) -> Seq<char>
    decreases members, n,
{
    if n == 0 || n > members.len() {
        Seq::empty()
    } else if n == 1 {
        members[0].0@ + seq![':', ' '] + js_text(members[0].1)
    } else {
        js_members_text(members, (n - 1) as nat) + list_sep() + members[n - 1].0@ + seq![':', ' ']
            + js_text(members[n - 1].1)
    }
}

/// Renders a script result for the console (see [`js_text`]).
pub fn format_jsvalue(value: &JsValue) -> (text: String)
    ensures
        text@ == js_text(*value),
    decreases value,
{
    proof {
        reveal_strlit("undefined");
        reveal_strlit("null");
        reveal_strlit("true");
        reveal_strlit("false");
        reveal_strlit(", ");
        reveal_strlit(": ");
        reveal_strlit("[");
        reveal_strlit("]");
        reveal_strlit("{");
        reveal_strlit("}");
    }
    match value {
        JsValue::Undefined => {
            let t = String::from_str("undefined");
            assert(t@ =~= undefined_text());
            t
        },
        JsValue::Null => {
            let t = String::from_str("null");
            assert(t@ =~= null_text());
            t
        },
        JsValue::Boolean(b) => {
            let t = if *b {
                String::from_str("true")
            } else {
                String::from_str("false")
            };
            assert(t@ =~= bool_text(*b));
            t
        },
        JsValue::Number(n) => n.clone(),
        JsValue::String(s) => s.clone(),
        JsValue::Element(s) => s.clone(),
        JsValue::ShadowRoot(s) => s.clone(),
        JsValue::Frame(s) => s.clone(),
        JsValue::Window(s) => s.clone(),
        JsValue::Array(items) => {
            let mut text = String::from_str("[");
            let mut i: usize = 0;
            while i < items.len()
                invariant
                    *value == JsValue::Array(*items),
                    i <= items@.len(),
                    text@ == seq!['['] + js_items_text(items@, i as nat),
                    ", "@ == list_sep(),
                    "]"@ == seq![']'],
                decreases items@.len() - i,
            {
                if i > 0 {
                    text.append(", ");
                }
                proof {
                    assert(decreases_to!(*value => (*value)->Array_0));
                    assert(decreases_to!((*value)->Array_0 => (*value)->Array_0@));
                    assert(decreases_to!(items@ => items@[i as int]));
                    assert(decreases_to!(*value => items@[i as int]));
                }
                let part = format_jsvalue(&items[i]);
                text.append(part.as_str());
                proof {
                    if i == 0 {
                        assert(text@ =~= seq!['['] + js_items_text(items@, 1));
                    } else {
                        assert(text@ =~= seq!['['] + js_items_text(items@, (i + 1) as nat));
                    }
                }
                i = i + 1;
            }
            text.append("]");
            text
        },
        JsValue::Object(members) => {
            let mut text = String::from_str("{");
            let mut i: usize = 0;
            while i < members.len()
                invariant
                    *value == JsValue::Object(*members),
                    i <= members@.len(),
                    text@ == seq!['{'] + js_members_text(members@, i as nat),
                    ", "@ == list_sep(),
                    ": "@ == seq![':', ' '],
                    "}"@ == seq!['}'],
                decreases members@.len() - i,
            {
                if i > 0 {
                    text.append(", ");
                }
                text.append(members[i].0.as_str());
                text.append(": ");
                proof {
                    assert(decreases_to!(*value => (*value)->Object_0));
                    assert(decreases_to!((*value)->Object_0 => (*value)->Object_0@));
                    assert(decreases_to!(members@ => members@[i as int]));
                    assert(decreases_to!(members@[i as int] => members@[i as int].1));
                    assert(decreases_to!(*value => members@[i as int].1));
                }
                let part = format_jsvalue(&members[i].1);
                text.append(part.as_str());
                proof {
                    if i == 0 {
                        assert(text@ =~= seq!['{'] + js_members_text(members@, 1));
                    } else {
                        assert(text@ =~= seq!['{'] + js_members_text(members@, (i + 1) as nat));
                    }
                }
                i = i + 1;
            }
            text.append("}");
            text
        },
    }
}


/// Length of the sign of an `i32` literal (a leading `+` or `-`).
pub open spec fn sign_len(s: Seq<char>) -> int {
    if s.len() > 0 && (s[0] == '+' || s[0] == '-') {
        1
    } else {
        0
    }
}

/// Whether `s` has the shape `i32::from_str` accepts: an optional sign, then at least one ASCII
/// digit and nothing else.
pub open spec fn i32_syntax(s: Seq<char>) -> bool {
    &&& s.skip(sign_len(s)).len() > 0
    &&& forall|i: int| 0 <= i < s.skip(sign_len(s)).len() ==> '0' <= #[trigger] s.skip(sign_len(s))[i] <= '9'
}

/// What `i32::from_str` gives for `s`: the signed number, or `None` when the syntax is wrong or the
/// number does not fit.
pub open spec fn i32_value(s: Seq<char>) -> Option<i32> {
    let v = char_decimal_value(s.skip(sign_len(s)));
    if !i32_syntax(s) {
        None
    } else if s[0] == '-' {
        if v <= 0x8000_0000 {
            Some((0 - v) as i32)
        } else {
            None
        }
    } else if v <= 0x7FFF_FFFF {
        Some(v as i32)
    } else {
        None
    }
}

/// Parses an `i32` the way `i32::from_str` does (see [`i32_value`]).
pub fn parse_i32(s: &str) -> (v: Option<i32>)
    ensures
        v == i32_value(s@),
{
    let n = s.unicode_len();
    let negative = n > 0 && s.get_char(0) == '-';
    let start: usize = if n > 0 && (s.get_char(0) == '+' || s.get_char(0) == '-') { 1 } else { 0 };
    assert(start == sign_len(s@));
    if start >= n {
        return None;
    }
    let limit: u64 = if negative { 0x8000_0000 } else { 0x7FFF_FFFF };
    let mut value: u64 = 0;
    let mut i: usize = start;
    while i < n
        invariant
            n == s@.len(),
            start == sign_len(s@),
            start <= i <= n,
            start < n,
            negative == (s@[0] == '-'),
            limit == if negative { 0x8000_0000u64 } else { 0x7FFF_FFFFu64 },
            forall|k: int| start <= k < i ==> '0' <= #[trigger] s@[k] <= '9',
            value == char_decimal_value(s@.subrange(start as int, i as int)),
            value <= limit,
        decreases n - i,
    {
        let c = s.get_char(i);
        if c < '0' || c > '9' {
            assert(!i32_syntax(s@)) by {
                assert(s@.skip(sign_len(s@))[i - start] == s@[i as int]);
            }
            return None;
        }
        let d = (c as u32 - 48) as u64;
        proof {
            assert(s@.subrange(start as int, i + 1).drop_last() =~= s@.subrange(start as int, i as int));
        }
        if value > (limit - d) / 10 {
            proof {
                let full = s@.skip(start as int);
                let pre = s@.subrange(start as int, i + 1);
                assert(char_decimal_value(pre) == value * 10 + d);
                if i32_syntax(s@) {
                    lemma_decimal_prefix_bound(full, (i - start + 1) as nat);
                    assert(full.take((i - start + 1) as int) =~= pre);
                }
            }
            return None;
        }
        value = value * 10 + d;
        i = i + 1;
    }
    assert(s@.subrange(start as int, n as int) =~= s@.skip(sign_len(s@)));
    if negative {
        Some((0 - (value as i64)) as i32)
    } else {
        Some(value as i32)
    }
}

/// Index of the first comma of `s`, or -1 when there is none.
pub open spec fn first_comma(s: Seq<char>) -> int
    decreases s.len(),
{
    if s.len() == 0 {
        -1
    } else if s[0] == ',' {
        0
    } else if first_comma(s.drop_first()) < 0 {
        -1
    } else {
        first_comma(s.drop_first()) + 1
    }
}

proof fn lemma_first_comma(s: Seq<char>, i: int)
    requires
        0 <= i <= s.len(),
        forall|k: int| 0 <= k < i ==> s[k] != ',',
        i == s.len() || s[i] == ',',
    ensures
        first_comma(s) == if i == s.len() { -1 } else { i },
    decreases s.len(),
{
    if s.len() > 0 && i > 0 {
        lemma_first_comma(s.drop_first(), i - 1);
    }
}

/// The `(index, count)` pair of the find script's answer `"index,count"`: the text of the result
/// (the string itself, or its console rendering), cut at the first comma, each side trimmed and
/// read as an `i32`; `None` when there is no comma or a side is no number.
pub open spec fn find_result_of(v: JsValue) -> Option<(i32, i32)> {
    let s = match v {
        JsValue::String(s) => s@,
        _ => js_text(v),
    };
    let c = first_comma(s);
    if c < 0 {
        None
    } else {
        match (i32_value(trimmed(s.take(c))), i32_value(trimmed(s.skip(c + 1)))) {
            (Some(idx), Some(count)) => Some((idx, count)),
            _ => None,
        }
    }
}

/// Reads the find script's `"index,count"` answer (see [`find_result_of`]).
pub fn parse_find_result(value: &JsValue) -> (r: Option<(i32, i32)>)
    ensures
        r == find_result_of(*value),
{
    let s = match value {
        JsValue::String(s) => s.clone(),
        _ => format_jsvalue(value),
    };
    let n = s.as_str().unicode_len();
    let mut i: usize = 0;
    while i < n && s.as_str().get_char(i) != ','
        invariant
            n == s@.len(),
            i <= n,
            forall|k: int| 0 <= k < i ==> s@[k] != ',',
        decreases n - i,
    {
        i = i + 1;
    }
    proof {
        lemma_first_comma(s@, i as int);
    }
    if i == n {
        return None;
    }
    let left = s.as_str().substring_char(0, i);
    let right = s.as_str().substring_char(i + 1, n);
    assert(left@ =~= s@.take(i as int));
    assert(right@ =~= s@.skip(i + 1));
    match (parse_i32(trim(left)), parse_i32(trim(right))) {
        (Some(idx), Some(count)) => Some((idx, count)),
        _ => None,
    }
}

/// The find-in-page script injected in the active page. The engine offers no native search, so the
/// script walks the text nodes, wraps every case-insensitive match of the query in a highlighted
/// `<mark>`, moves to the next (or previous) match, scrolls it into view and answers
/// `"index,count"` (1-based index; `"0,0"` for no match or an empty query). `__Q__` and `__F__`
/// stand for the query literal and the direction.
pub const FIND_JS_TEMPLATE: &'static str = r"(function(q, forward){
var P='bb-find';
var old=document.querySelectorAll('mark.'+P);
for(var k=0;k<old.length;k++){var m=old[k];var t=document.createTextNode(m.textContent);m.parentNode.replaceChild(t,m);}
if(q===''){window.__bbq='';window.__bbi=0;return '0,0';}
var lc=q.toLowerCase();
var prev=window.__bbq; window.__bbq=q;
var nodes=[];
var w=document.createTreeWalker(document.body, NodeFilter.SHOW_TEXT, null);
var nd; while(nd=w.nextNode()){
  var v=nd.nodeValue; if(!v||!v.trim())continue;
  var p=nd.parentNode; if(!p)continue;
  var tag=p.nodeName; if(tag==='SCRIPT'||tag==='STYLE'||tag==='NOSCRIPT'||tag==='TEXTAREA')continue;
  if(v.toLowerCase().indexOf(lc)===-1)continue;
  nodes.push(nd);
}
var marks=[];
for(var i2=0;i2<nodes.length;i2++){
  var node=nodes[i2]; var text=node.nodeValue; var low=text.toLowerCase();
  var frag=document.createDocumentFragment(); var last=0; var pos;
  while((pos=low.indexOf(lc,last))!==-1){
    if(pos>last)frag.appendChild(document.createTextNode(text.slice(last,pos)));
    var mk=document.createElement('mark'); mk.className=P;
    mk.style.backgroundColor='#6c5ce7'; mk.style.color='#fff'; mk.style.borderRadius='2px';
    mk.textContent=text.slice(pos,pos+q.length);
    frag.appendChild(mk); marks.push(mk);
    last=pos+q.length;
  }
  if(last<text.length)frag.appendChild(document.createTextNode(text.slice(last)));
  node.parentNode.replaceChild(frag,node);
}
var count=marks.length;
if(count===0){window.__bbi=0;return '0,0';}
var idx;
if(prev!==q){idx=0;}else{idx=(window.__bbi||0)+(forward?1:-1);}
if(idx<0)idx=count-1; if(idx>=count)idx=0;
window.__bbi=idx;
for(var j=0;j<marks.length;j++){marks[j].style.backgroundColor=(j===idx)?'#ff8a3d':'#6c5ce7';}
try{marks[idx].scrollIntoView({block:'center'});}catch(e){marks[idx].scrollIntoView();}
return (idx+1)+','+count;
})(__Q__, __F__)";

/// Removes the find highlights (when the find bar closes).
pub const FIND_CLEAR_JS: &'static str = r"(function(){var P='bb-find';var old=document.querySelectorAll('mark.'+P);for(var k=0;k<old.length;k++){var m=old[k];var t=document.createTextNode(m.textContent);m.parentNode.replaceChild(t,m);}window.__bbq='';window.__bbi=0;})()";

pub open spec fn query_token() -> Seq<char> {
    seq!['_', '_', 'Q', '_', '_']
}

pub open spec fn direction_token() -> Seq<char> {
    seq!['_', '_', 'F', '_', '_']
}

/// The find script for `query` and direction: the template with the query's JSON string literal
/// for `__Q__`, then `true`/`false` for `__F__`.
pub open spec fn find_script_of(template: Seq<char>, query: Seq<char>, forward: bool) -> Seq<char> {
    replaced(replaced(template, query_token(), json_quoted(query)), direction_token(), bool_text(forward))
}

/// Builds the find script for `query` (see [`find_script_of`]).
pub fn find_script(query: &str, forward: bool) -> (script: String)
    ensures
        script@ == find_script_of(FIND_JS_TEMPLATE@, query@, forward),
{
    let q = match json_string_literal(query) {
        Ok(q) => q,
        Err(_) => String::from_str("\"\""),
    };
    let q_token = "__Q__";
    let f_token = "__F__";
    let yes = "true";
    let no = "false";
    proof {
        reveal_strlit("__Q__");
        reveal_strlit("__F__");
        reveal_strlit("true");
        reveal_strlit("false");
        assert(q_token@ =~= query_token());
        assert(f_token@ =~= direction_token());
        assert(yes@ =~= bool_text(true));
        assert(no@ =~= bool_text(false));
    }
    let with_query = replace_all(FIND_JS_TEMPLATE, q_token, q.as_str());
    replace_all(with_query.as_str(), f_token, if forward { yes } else { no })
}

/// A script's scalar results render as their own literals: `undefined`, `null`, `true` for true
/// and `false` for false (so the two booleans never render alike); a number, a string and the
/// opaque ids of DOM references render as their text, unquoted.
pub proof fn scalar_results_render_as_literals(b: bool, t: String)
    ensures
        js_text(JsValue::Undefined) == seq!['u', 'n', 'd', 'e', 'f', 'i', 'n', 'e', 'd'],
        js_text(JsValue::Null) == seq!['n', 'u', 'l', 'l'],
        js_text(JsValue::Boolean(true)) == seq!['t', 'r', 'u', 'e'],
        js_text(JsValue::Boolean(false)) == seq!['f', 'a', 'l', 's', 'e'],
        js_text(JsValue::Boolean(b)) != js_text(JsValue::Boolean(!b)),
        js_text(JsValue::Number(t)) == t@,
        js_text(JsValue::String(t)) == t@,
        js_text(JsValue::Element(t)) == t@,
        js_text(JsValue::ShadowRoot(t)) == t@,
        js_text(JsValue::Frame(t)) == t@,
        js_text(JsValue::Window(t)) == t@,
{
    assert(seq!['t', 'r', 'u', 'e'][0] != seq!['f', 'a', 'l', 's', 'e'][0]);
}

/// An array renders as its items' texts between brackets, separated by a comma and a space; an
/// object as `key: value` pairs in order between braces, separated the same way.
pub proof fn containers_render_items_in_order(items: Vec<JsValue>, members: Vec<(String, JsValue)>)
    ensures
        items@.len() == 0 ==> js_text(JsValue::Array(items)) == seq!['[', ']'],
        items@.len() == 1 ==> js_text(JsValue::Array(items)) == seq!['['] + js_text(items@[0]) + seq![']'],
        items@.len() == 2 ==> js_text(JsValue::Array(items)) == seq!['['] + js_text(items@[0]) + seq![',', ' ']
            + js_text(items@[1]) + seq![']'],
        members@.len() == 0 ==> js_text(JsValue::Object(members)) == seq!['{', '}'],
        members@.len() == 1 ==> js_text(JsValue::Object(members)) == seq!['{'] + members@[0].0@ + seq![':', ' ']
            + js_text(members@[0].1) + seq!['}'],
        members@.len() == 2 ==> js_text(JsValue::Object(members)) == seq!['{'] + members@[0].0@ + seq![':', ' ']
            + js_text(members@[0].1) + seq![',', ' '] + members@[1].0@ + seq![':', ' '] + js_text(members@[1].1)
            + seq!['}'],
{
    if items@.len() == 2 {
        assert(js_items_text(items@, 1) == js_text(items@[0]));
    }
    if members@.len() == 2 {
        assert(js_members_text(members@, 1) == members@[0].0@ + seq![':', ' '] + js_text(members@[0].1));
    }
    assert(seq!['['] + js_items_text(items@, items@.len()) + seq![']'] =~= js_text(JsValue::Array(items)));
    if items@.len() == 2 {
        assert(seq!['['] + js_text(items@[0]) + seq![',', ' '] + js_text(items@[1]) + seq![']']
            =~= seq!['['] + (js_text(items@[0]) + list_sep() + js_text(items@[1])) + seq![']']);
    }
    if members@.len() == 2 {
        assert(seq!['{'] + members@[0].0@ + seq![':', ' '] + js_text(members@[0].1) + seq![',', ' '] + members@[1].0@
            + seq![':', ' '] + js_text(members@[1].1) + seq!['}'] =~= seq!['{'] + (members@[0].0@ + seq![':', ' ']
            + js_text(members@[0].1) + list_sep() + members@[1].0@ + seq![':', ' '] + js_text(members@[1].1))
            + seq!['}']);
    }
    if members@.len() == 1 {
        assert(seq!['{'] + members@[0].0@ + seq![':', ' '] + js_text(members@[0].1) + seq!['}'] =~= seq!['{']
            + (members@[0].0@ + seq![':', ' '] + js_text(members@[0].1)) + seq!['}']);
    }
    if items@.len() == 1 {
        assert(seq!['['] + js_text(items@[0]) + seq![']'] =~= seq!['['] + js_text(items@[0]) + seq![']']);
    }
    if items@.len() == 0 {
        assert(seq!['['] + Seq::<char>::empty() + seq![']'] =~= seq!['[', ']']);
    }
    if members@.len() == 0 {
        assert(seq!['{'] + Seq::<char>::empty() + seq!['}'] =~= seq!['{', '}']);
    }
}

} // verus!
