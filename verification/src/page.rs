//! The doors that lead through a page: clicking a control by its accessible name, and calling the
//! tools a page registers.

use crate::cut::{replace, replaced, trim_end_char, trim_tail};
use crate::effect::{plain, plain_text, EffectError, EffectErrorV};
use crate::json::{
    as_str, entry, get_entry, json_text, member, obj_view, quote, quoted, Json, JsonV,
};
use crate::plan::{Node, NodeV};
use crate::text::{debug_str, debug_text, owned, same};
use vstd::prelude::*;

verus! {

/// The fixed screen every pixel lane sees. Coordinates the model returns are in this space.
pub const SCREEN_W: u32 = 1280;

pub const SCREEN_H: u32 = 800;

// ---------- where the browser is ----------

/// The places where a browser usually is.
pub open spec fn usual() -> Seq<Seq<char>> {
    seq![
        "/Applications/Google Chrome.app/Contents/MacOS/Google Chrome"@,
        "/Applications/Chromium.app/Contents/MacOS/Chromium"@,
        "/usr/bin/chromium"@,
        "/usr/bin/chromium-browser"@,
        "/usr/bin/google-chrome"@,
    ]
}

pub open spec fn strs_view(xs: Seq<&'static str>) -> Seq<Seq<char>> {
    xs.map_values(|x: &'static str| x@)
}

/// The places where a browser usually is.
pub fn usual_places() -> (r: Vec<&'static str>)
    ensures
        strs_view(r@) == usual(),
{
    let mut r: Vec<&'static str> = Vec::new();
    r.push("/Applications/Google Chrome.app/Contents/MacOS/Google Chrome");
    r.push("/Applications/Chromium.app/Contents/MacOS/Chromium");
    r.push("/usr/bin/chromium");
    r.push("/usr/bin/chromium-browser");
    r.push("/usr/bin/google-chrome");
    assert(strs_view(r@) =~= usual());
    r
}

/// Whether a browser is not wanted at all.
pub open spec fn skipped(skip: Option<Seq<char>>) -> bool {
    match skip {
        Some(v) => v != "0"@ && v.len() > 0,
        None => false,
    }
}

/// The browser to use: none where it is to be skipped, else the one that was named, else the first
/// usual place that exists.
pub open spec fn browser(
    skip: Option<Seq<char>>,
    named: Option<Seq<char>>,
    exists: Seq<bool>,
) -> Option<Seq<char>> {
    if skipped(skip) {
        None
    } else if named is Some {
        named
    } else {
        first_there(usual(), exists)
    }
}

pub open spec fn first_there(places: Seq<Seq<char>>, exists: Seq<bool>) -> Option<Seq<char>>
    decreases places.len(),
{
    if places.len() == 0 || exists.len() == 0 {
        None
    } else if exists[0] {
        Some(places[0])
    } else {
        first_there(places.drop_first(), exists.drop_first())
    }
}

pub open spec fn str_opt(x: Option<&str>) -> Option<Seq<char>> {
    match x {
        Some(s) => Some(s@),
        None => None,
    }
}

pub open spec fn string_opt(x: Option<String>) -> Option<Seq<char>> {
    match x {
        Some(s) => Some(s@),
        None => None,
    }
}

/// The browser to use, where `exists` says of each usual place whether something is there.
pub fn find_chrome(skip: Option<&str>, named: Option<&str>, exists: &Vec<bool>) -> (r: Option<
    String,
>)
    ensures
        string_opt(r) == browser(str_opt(skip), str_opt(named), exists@),
{
    match skip {
        Some(v) => {
            proof {
                reveal_strlit("");
                if v@.len() == 0 {
                    assert(v@ =~= ""@);
                }
            }
            if !same(v, "0") && !same(v, "") {
                return None;
            }
        },
        None => {},
    }
    match named {
        Some(n) => {
            return Some(owned(n));
        },
        None => {},
    }
    let places = usual_places();
    let ghost all = usual();
    assert(all.len() == places@.len());
    let mut i: usize = 0;
    assert(all.skip(0) =~= all);
    assert(exists@.skip(0) =~= exists@);
    while i < places.len() && i < exists.len()
        invariant
            i <= places@.len() == all.len(),
            i <= exists@.len(),
            strs_view(places@) == all,
            all == usual(),
            !skipped(str_opt(skip)),
            named is None,
            first_there(all, exists@) == first_there(
                all.skip(i as int),
                exists@.skip(i as int),
            ),
        decreases places@.len() - i,
    {
        assert(all.skip(i as int)[0] == strs_view(places@)[i as int]);
        assert(all.skip(i as int).drop_first() =~= all.skip(i + 1));
        assert(exists@.skip(i as int).drop_first() =~= exists@.skip(i + 1));
        if exists[i] {
            return Some(owned(places[i]));
        }
        i += 1;
    }
    None
}

// ---------- a control on a page ----------

/// A template with every `{argument}` in it replaced by the argument's value, one after the other.
pub open spec fn filled_in(template: Seq<char>, args: Seq<(Seq<char>, JsonV)>) -> Seq<char>
    decreases args.len(),
{
    if args.len() == 0 {
        template
    } else {
        replaced(
            filled_in(template, args.drop_last()),
            "{"@ + args.last().0 + "}"@,
            plain(args.last().1),
        )
    }
}

/// A template with the arguments filled in.
pub fn fill(template: &str, args: &Vec<(String, Json)>) -> (r: String)
    ensures
        r@ == filled_in(template@, obj_view(args@)),
{
    let ghost vs = obj_view(args@);
    let mut out = owned(template);
    let mut i: usize = 0;
    assert(out@ == filled_in(template@, vs.take(0)));
    while i < args.len()
        invariant
            i <= args@.len() == vs.len(),
            vs == obj_view(args@),
            out@ == filled_in(template@, vs.take(i as int)),
        decreases args@.len() - i,
    {
        proof {
            assert(vs.take(i + 1).drop_last() =~= vs.take(i as int));
            assert(vs.take(i + 1).last() == (args@[i as int].0@, args@[i as int].1@));
        }
        let mut hole = owned("{");
        hole.push_str(args[i].0.as_str());
        hole.push_str("}");
        let text = plain_text(&args[i].1);
        out = replace(out.as_str(), hole.as_str(), text.as_str());
        i += 1;
    }
    assert(vs.take(i as int) =~= vs);
    out
}

/// The script that clicks the control with an accessible name, and says whether there was one.
pub open spec fn click_script(role: Seq<char>, name: Seq<char>) -> Seq<char> {
    "(() => { const q = "@ + quoted(name) + "; const el = [...document.querySelectorAll('"@ + role
        + ", [role=\""@ + role
        + "\"]')].find(e => (e.getAttribute('aria-label') || e.textContent || '').trim() === q); if (!el) return false; el.click(); return true; })()"@
}

/// The script that clicks a control by name.
pub fn click_by_name(role: &str, name: &str) -> (r: String)
    ensures
        r@ == click_script(role@, name@),
{
    let mut t = owned("(() => { const q = ");
    t.push_str(quote(name).as_str());
    t.push_str("; const el = [...document.querySelectorAll('");
    t.push_str(role);
    t.push_str(", [role=\"");
    t.push_str(role);
    t.push_str(
        "\"]')].find(e => (e.getAttribute('aria-label') || e.textContent || '').trim() === q); if (!el) return false; el.click(); return true; })()",
    );
    t
}

/// What a node needs of a page: where to go, what to click, and where its effect is seen.
pub struct OnPage {
    pub url: String,
    pub role: String,
    pub name: String,
    pub watch: Option<String>,
}

pub struct OnPageV {
    pub url: Seq<char>,
    pub role: Seq<char>,
    pub name: Seq<char>,
    pub watch: Option<Seq<char>>,
}

impl View for OnPage {
    type V = OnPageV;

    open spec fn view(&self) -> OnPageV {
        OnPageV {
            url: self.url@,
            role: self.role@,
            name: self.name@,
            watch: string_opt(self.watch),
        }
    }
}

/// A text entry of a control, or something in its place.
pub open spec fn said(control: JsonV, k: Seq<char>, d: Seq<char>) -> Seq<char> {
    match member(control, k) {
        Some(JsonV::Str(s)) => s,
        _ => d,
    }
}

/// What a node needs of a page at an address.
pub open spec fn page_for(
    base: Seq<char>,
    n: NodeV,
    args: Seq<(Seq<char>, JsonV)>,
) -> Result<OnPageV, EffectErrorV> {
    match n.ui {
        None => Err(EffectErrorV::Fatal(n.op + " is not a UI operation"@)),
        Some(ui) => Ok(
            OnPageV {
                url: base + filled_in(ui.route, args),
                role: said(ui.control, "role"@, "button"@),
                name: filled_in(said(ui.control, "name"@, ""@), args),
                watch: match entry(args, "id"@) {
                    Some(id) => Some(base + "/api/invoices/"@ + json_text(id)),
                    None => None,
                },
            },
        ),
    }
}

pub open spec fn page_view(r: Result<OnPage, EffectError>) -> Result<OnPageV, EffectErrorV> {
    match r {
        Ok(p) => Ok(p@),
        Err(e) => Err(e@),
    }
}

fn said_in(control: &Json, k: &str, d: &str) -> (r: String)
    ensures
        r@ == said(control@, k@, d@),
{
    match as_str(control.get(k)) {
        Some(s) => owned(s),
        None => owned(d),
    }
}

/// What a node needs of a page.
pub fn on_page(base: &str, node: &Node, args: &Vec<(String, Json)>) -> (r: Result<
    OnPage,
    EffectError,
>)
    ensures
        page_view(r) == page_for(trim_tail(base@, '/'), node@, obj_view(args@)),
{
    let base = trim_end_char(base, '/');
    match &node.ui {
        None => {
            let mut t = owned(node.op.as_str());
            t.push_str(" is not a UI operation");
            Err(EffectError::Fatal(t))
        },
        Some(ui) => {
            let mut url = owned(base.as_str());
            url.push_str(fill(ui.route.as_str(), args).as_str());
            let role = said_in(&ui.control, "role", "button");
            let name = fill(said_in(&ui.control, "name", "").as_str(), args);
            let watch = match get_entry(args, "id") {
                Some(id) => {
                    let mut w = owned(base.as_str());
                    w.push_str("/api/invoices/");
                    w.push_str(id.to_string().as_str());
                    Some(w)
                },
                None => None,
            };
            Ok(OnPage { url, role, name, watch })
        },
    }
}

/// How often a control is tried and an effect looked for, a tenth of a second apart.
pub const TRIES: u32 = 30;

/// What follows a try.
pub enum Next {
    /// It worked.
    Go,
    /// Try once more after so many milliseconds.
    Again(u64),
    /// It will not.
    Stop(EffectError),
}

pub enum NextV {
    Go,
    Again(u64),
    Stop(EffectErrorV),
}

impl View for Next {
    type V = NextV;

    open spec fn view(&self) -> NextV {
        match self {
            Next::Go => NextV::Go,
            Next::Again(ms) => NextV::Again(*ms),
            Next::Stop(e) => NextV::Stop(e@),
        }
    }
}

/// Why a click did nothing.
pub open spec fn click_trouble(p: OnPageV, got: Result<JsonV, Seq<char>>) -> Seq<char> {
    match got {
        Err(e) => e,
        Ok(_) => "no "@ + p.role + " named "@ + debug_text(p.name),
    }
}

/// What follows a click: the page renders from a fetch, so the control gets a moment to appear.
pub open spec fn clicked(p: OnPageV, got: Result<JsonV, Seq<char>>, tries: u32) -> NextV {
    if got == Ok::<JsonV, Seq<char>>(JsonV::Bool(true)) {
        NextV::Go
    } else if tries < TRIES {
        NextV::Again(100)
    } else {
        NextV::Stop(EffectErrorV::Fatal(click_trouble(p, got)))
    }
}

pub open spec fn got_view(got: Result<Json, String>) -> Result<JsonV, Seq<char>> {
    match got {
        Ok(v) => Ok(v@),
        Err(e) => Err(e@),
    }
}

/// What follows the click that was number `tries`.
pub fn after_click(p: &OnPage, got: &Result<Json, String>, tries: u32) -> (r: Next)
    ensures
        r@ == clicked(p@, got_view(*got), tries),
{
    match got {
        Ok(Json::Bool(true)) => {
            return Next::Go;
        },
        _ => {},
    }
    if tries < TRIES {
        return Next::Again(100);
    }
    match got {
        Err(e) => Next::Stop(EffectError::Fatal(e.clone())),
        Ok(_) => {
            let mut t = owned("no ");
            t.push_str(p.role.as_str());
            t.push_str(" named ");
            t.push_str(debug_str(p.name.as_str()).as_str());
            Next::Stop(EffectError::Fatal(t))
        },
    }
}

/// What follows a look at the effect, through the same interface that every other door is observed
/// by.
pub open spec fn looked(p: OnPageV, seen: JsonV, looks: u32) -> NextV {
    if member(seen, "approved"@) == Some(JsonV::Bool(true)) {
        NextV::Go
    } else if looks < TRIES {
        NextV::Again(100)
    } else {
        NextV::Stop(
            EffectErrorV::Fatal(
                "clicked "@ + debug_text(p.name) + " but the invoice never showed approved"@,
            ),
        )
    }
}

/// What follows the look that was number `looks`.
pub fn after_look(p: &OnPage, seen: &Json, looks: u32) -> (r: Next)
    ensures
        r@ == looked(p@, seen@, looks),
{
    match seen.get("approved") {
        Some(Json::Bool(true)) => {
            return Next::Go;
        },
        _ => {},
    }
    if looks < TRIES {
        return Next::Again(100);
    }
    let mut t = owned("clicked ");
    t.push_str(debug_str(p.name.as_str()).as_str());
    t.push_str(" but the invoice never showed approved");
    Next::Stop(EffectError::Fatal(t))
}

/// Trying ends: the last try is not followed by another, and before it nothing is given up.
pub proof fn tries_end(p: OnPageV, got: Result<JsonV, Seq<char>>, seen: JsonV, tries: u32)
    ensures
        tries >= TRIES ==> !(clicked(p, got, tries) is Again) && !(looked(p, seen, tries) is Again),
        tries < TRIES ==> !(clicked(p, got, tries) is Stop) && !(looked(p, seen, tries) is Stop),
{
}

// ---------- the tools a page registers ----------

/// Tools registered by the page itself, called where the page runs.
pub struct WebMcpBackend {
    pub base: String,
}

/// The script that tells where a page is.
pub const WHERE_SCRIPT: &'static str = "location.origin";

/// The script that lists the tools of a page.
pub const LIST_SCRIPT: &'static str = "window.__webmcp.list()";

impl WebMcpBackend {
    pub fn surface(&self) -> (r: &'static str)
        ensures
            r@ == "webmcp"@,
    {
        "webmcp"
    }

    /// Whether a page has to be taken to the app first: it is not there already.
    pub fn away(&self, here: &Json) -> (r: bool)
        ensures
            r == (here@ != JsonV::Str(trim_tail(self.base@, '/'))),
    {
        match here {
            Json::Str(s) => !same(s.as_str(), trim_end_char(self.base.as_str(), '/').as_str()),
            _ => true,
        }
    }

    /// The script that calls a tool of a page.
    pub fn call_script(&self, name: &str, args: &Json) -> (r: String)
        ensures
            r@ == "window.__webmcp.call("@ + quoted(name@) + ", "@ + json_text(args@) + ")"@,
    {
        let mut t = owned("window.__webmcp.call(");
        t.push_str(quote(name).as_str());
        t.push_str(", ");
        t.push_str(args.to_string().as_str());
        t.push_str(")");
        t
    }
}

} // verus!
