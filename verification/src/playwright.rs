//! The browser automation tool: its description, the checking of its input,
//! and the results it reports. The browser itself is driven elsewhere.

use vstd::prelude::*;

use crate::e2ee::{base64_encode, base64_encoded};

verus! {

/// The browser automation tool.
pub struct PlaywrightTool {}

/// What a tool may do to the system.
#[derive(Debug, PartialEq, Eq, Structural)]
pub enum PermissionLevel {
    /// Reads only.
    ReadOnly,
}

/// The input of one call of the tool.
pub struct PlaywrightInput {
    pub action: String,
    pub url: Option<String>,
    pub selector: Option<String>,
    pub text: Option<String>,
    pub context_id: Option<String>,
}

/// What a tool call reports.
pub struct ToolResult {
    pub content: String,
    pub is_error: bool,
}

impl ToolResult {
    /// A successful result with `content`.
    pub fn success(content: String) -> (r: Self)
        ensures
            r.content@ == content@,
            !r.is_error,
    {
        ToolResult { content, is_error: false }
    }

    /// A failed result saying `content`.
    pub fn error(content: String) -> (r: Self)
        ensures
            r.content@ == content@,
            r.is_error,
    {
        ToolResult { content, is_error: true }
    }
}

/// The tool's description.
pub open spec fn tool_description() -> Seq<char> {
    "Browser automation using Playwright for web testing, screenshots, and interaction. Use actions: launch, navigate, click, fill, text, screenshot, close. Requires: npx playwright@1.59.1 install"@
}

/// The JSON schema of the tool's input.
pub open spec fn tool_input_schema() -> Seq<char> {
    "{\"properties\":{\"action\":{\"enum\":[\"launch\",\"navigate\",\"click\",\"fill\",\"text\",\"screenshot\",\"close\"],\"type\":\"string\"},\"context_id\":{\"type\":\"string\"},\"selector\":{\"type\":\"string\"},\"text\":{\"type\":\"string\"},\"url\":{\"type\":\"string\"}},\"required\":[\"action\"],\"type\":\"object\"}"@
}

impl PlaywrightTool {
    /// The tool.
    pub fn new() -> (t: Self) {
        PlaywrightTool {}
    }

    /// The tool's name.
    pub fn name(&self) -> (r: String)
        ensures
            r@ == "playwright"@,
    {
        String::from_str("playwright")
    }

    /// What the tool does and needs.
    pub fn description(&self) -> (r: String)
        ensures
            r@ == tool_description(),
    {
        String::from_str("Browser automation using Playwright for web testing, screenshots, and interaction. Use actions: launch, navigate, click, fill, text, screenshot, close. Requires: npx playwright@1.59.1 install")
    }

    /// The tool only reads.
    pub fn permission_level(&self) -> (r: PermissionLevel)
        ensures
            r == PermissionLevel::ReadOnly,
    {
        PermissionLevel::ReadOnly
    }

    /// The JSON schema of the input, keys in order: an object with a required
    /// `action`, one of the seven, and optional `url`, `selector`, `text` and
    /// `context_id`.
    pub fn input_schema(&self) -> (r: String)
        ensures
            r@ == tool_input_schema(),
    {
        String::from_str("{\"properties\":{\"action\":{\"enum\":[\"launch\",\"navigate\",\"click\",\"fill\",\"text\",\"screenshot\",\"close\"],\"type\":\"string\"},\"context_id\":{\"type\":\"string\"},\"selector\":{\"type\":\"string\"},\"text\":{\"type\":\"string\"},\"url\":{\"type\":\"string\"}},\"required\":[\"action\"],\"type\":\"object\"}")
    }
}

// ---------------------------------------------------------------------------
// Checking the input.
// ---------------------------------------------------------------------------

/// What a call asks the browser to do.
pub enum BrowserAction {
    Launch,
    Navigate { context_id: String, url: String },
    Click { context_id: String, selector: String },
    Fill { context_id: String, selector: String, text: String },
    Text { context_id: String, selector: String },
    Screenshot { context_id: String },
    Close { context_id: String },
}

/// What a browser action denotes.
pub enum ActionView {
    Launch,
    Navigate { context_id: Seq<char>, url: Seq<char> },
    Click { context_id: Seq<char>, selector: Seq<char> },
    Fill { context_id: Seq<char>, selector: Seq<char>, text: Seq<char> },
    Text { context_id: Seq<char>, selector: Seq<char> },
    Screenshot { context_id: Seq<char> },
    Close { context_id: Seq<char> },
}

impl View for BrowserAction {
    type V = ActionView;

    open spec fn view(&self) -> ActionView {
        match self {
            BrowserAction::Launch => ActionView::Launch,
            BrowserAction::Navigate { context_id, url } => ActionView::Navigate { context_id: context_id@, url: url@ },
            BrowserAction::Click { context_id, selector } => ActionView::Click { context_id: context_id@, selector: selector@ },
            BrowserAction::Fill { context_id, selector, text } => ActionView::Fill {
                context_id: context_id@,
                selector: selector@,
                text: text@,
            },
            BrowserAction::Text { context_id, selector } => ActionView::Text { context_id: context_id@, selector: selector@ },
            BrowserAction::Screenshot { context_id } => ActionView::Screenshot { context_id: context_id@ },
            BrowserAction::Close { context_id } => ActionView::Close { context_id: context_id@ },
        }
    }
}

pub open spec fn opt_view(o: Option<String>) -> Option<Seq<char>> {
    match o {
        Some(s) => Some(s@),
        None => None,
    }
}

/// What an input asks for, or the message it is refused with: the action
/// decides which fields it needs, and they are checked in the order
/// `context_id`, `url` or `selector`, then `text`.
pub open spec fn planned(action: Seq<char>, url: Option<Seq<char>>, selector: Option<Seq<char>>, text: Option<Seq<char>>,
    context_id: Option<Seq<char>>) -> Result<ActionView, Seq<char>>
{
    if action == "launch"@ {
        Ok(ActionView::Launch)
    } else if action == "navigate"@ || action == "click"@ || action == "fill"@ || action == "text"@
        || action == "screenshot"@ || action == "close"@ {
        match context_id {
            None => Err("context_id required"@),
            Some(c) => if action == "navigate"@ {
                match url {
                    None => Err("url required"@),
                    Some(u) => Ok(ActionView::Navigate { context_id: c, url: u }),
                }
            } else if action == "screenshot"@ {
                Ok(ActionView::Screenshot { context_id: c })
            } else if action == "close"@ {
                Ok(ActionView::Close { context_id: c })
            } else {
                match selector {
                    None => Err("selector required"@),
                    Some(s) => if action == "click"@ {
                        Ok(ActionView::Click { context_id: c, selector: s })
                    } else if action == "text"@ {
                        Ok(ActionView::Text { context_id: c, selector: s })
                    } else {
                        match text {
                            None => Err("text required"@),
                            Some(t) => Ok(ActionView::Fill { context_id: c, selector: s, text: t }),
                        }
                    }
                }
            }
        }
    } else {
        Err("Unknown action: "@ + action)
    }
}

fn str_is(s: &str, lit: &str) -> (r: bool)
    ensures
        r == (s@ == lit@),
{
    let a = crate::text::chars_of(s);
    crate::text::chars_equal_str(a.as_slice(), lit)
}

fn required(field: &Option<String>, name: &str) -> (r: Result<String, ToolResult>)
    ensures
        match field {
            Some(v) => r matches Ok(s) && s@ == v@,
            None => r matches Err(e) && e.is_error && e.content@ == name@ + " required"@,
        },
{
    match field {
        Some(v) => Ok(v.clone()),
        None => Err(ToolResult::error(String::from_str(name).concat(" required"))),
    }
}

/// The action `input` asks for, or the error result it is refused with.
pub fn plan_action(input: &PlaywrightInput) -> (r: Result<BrowserAction, ToolResult>)
    ensures
        match planned(input.action@, opt_view(input.url), opt_view(input.selector), opt_view(input.text),
            opt_view(input.context_id)) {
            Ok(a) => r matches Ok(b) && b@ == a,
            Err(m) => r matches Err(e) && e.is_error && e.content@ == m,
        },
{
    proof {
        reveal_strlit("context_id");
        reveal_strlit("url");
        reveal_strlit("selector");
        reveal_strlit("text");
        reveal_strlit(" required");
        reveal_strlit("context_id required");
        reveal_strlit("url required");
        reveal_strlit("selector required");
        reveal_strlit("text required");
    }
    let action = input.action.as_str();
    if str_is(action, "launch") {
        return Ok(BrowserAction::Launch);
    }
    let navigate = str_is(action, "navigate");
    let click = str_is(action, "click");
    let fill = str_is(action, "fill");
    let text = str_is(action, "text");
    let screenshot = str_is(action, "screenshot");
    let close = str_is(action, "close");
    if !(navigate || click || fill || text || screenshot || close) {
        return Err(ToolResult::error(String::from_str("Unknown action: ").concat(action)));
    }
    let context_id = required(&input.context_id, "context_id")?;
    if navigate {
        let url = required(&input.url, "url")?;
        return Ok(BrowserAction::Navigate { context_id, url });
    }
    if screenshot {
        return Ok(BrowserAction::Screenshot { context_id });
    }
    if close {
        return Ok(BrowserAction::Close { context_id });
    }
    let selector = required(&input.selector, "selector")?;
    if click {
        return Ok(BrowserAction::Click { context_id, selector });
    }
    if text {
        return Ok(BrowserAction::Text { context_id, selector });
    }
    let typed = required(&input.text, "text")?;
    Ok(BrowserAction::Fill { context_id, selector, text: typed })
}


// ---------------------------------------------------------------------------
// The results the tool reports.
// ---------------------------------------------------------------------------

/// `{"key":"value"}`, the value written as it is.
pub open spec fn json_pair(key: Seq<char>, value: Seq<char>) -> Seq<char> {
    "{\""@ + key + "\":\""@ + value + "\"}"@
}

/// A success reporting `value` under `key`.
fn reported(key: &str, value: &str) -> (r: ToolResult)
    ensures
        !r.is_error,
        r.content@ == json_pair(key@, value@),
{
    ToolResult::success(String::from_str("{\"").concat(key).concat("\":\"").concat(value).concat("\"}"))
}

/// Whether `c` is a lowercase hexadecimal digit.
pub open spec fn is_lower_hex(c: char) -> bool {
    ('0' <= c && c <= '9') || ('a' <= c && c <= 'f')
}

/// Whether `s` has the shape of a hyphenated lowercase UUID.
pub open spec fn uuid_shaped(s: Seq<char>) -> bool {
    &&& s.len() == 36
    &&& forall|i: int| 0 <= i < 36 ==> if i == 8 || i == 13 || i == 18 || i == 23 {
        #[trigger] s[i] == '-'
    } else {
        is_lower_hex(s[i])
    }
}

/// `uuid::Uuid::new_v4().to_string()`: a fresh random UUID. Only its shape,
/// the hyphenated lowercase form that `Display` writes, is claimed. It panics
/// where the system's random source fails; no input leads there.
#[verifier::external_body]
fn random_uuid() -> (s: String)
    ensures
        uuid_shaped(s@),
{
    uuid::Uuid::new_v4().to_string()
}

/// A fresh browser context id: a random UUID, as the launch result promises.
pub fn new_context_id() -> (id: String)
    ensures
        uuid_shaped(id@),
{
    random_uuid()
}

/// The success of a launch: the new context's id.
pub fn launched(context_id: &str) -> (r: ToolResult)
    ensures
        !r.is_error,
        r.content@ == json_pair("context_id"@, context_id@),
{
    reported("context_id", context_id)
}

/// The success of a navigation to `url`.
pub fn navigated(url: &str) -> (r: ToolResult)
    ensures
        !r.is_error,
        r.content@ == json_pair("navigated"@, url@),
{
    reported("navigated", url)
}

/// The success of a click on `selector`.
pub fn clicked(selector: &str) -> (r: ToolResult)
    ensures
        !r.is_error,
        r.content@ == json_pair("clicked"@, selector@),
{
    reported("clicked", selector)
}

/// The success of filling `selector`.
pub fn filled(selector: &str) -> (r: ToolResult)
    ensures
        !r.is_error,
        r.content@ == json_pair("filled"@, selector@),
{
    reported("filled", selector)
}

/// The text an element holds; an element without text content gives the
/// empty text.
pub fn text_found(text: &Option<String>) -> (r: ToolResult)
    ensures
        !r.is_error,
        r.content@ == json_pair("text"@, match text {
            Some(t) => t@,
            None => Seq::empty(),
        }),
{
    match text {
        Some(t) => reported("text", t.as_str()),
        None => {
            proof {
                reveal_strlit("");
            }
            reported("text", "")
        },
    }
}

/// A screenshot: the image bytes in base64.
pub fn screenshot_taken(image: &[u8]) -> (r: ToolResult)
    ensures
        !r.is_error,
        r.content@ == json_pair("screenshot"@, base64_encoded(image@)),
{
    let b64 = base64_encode(image);
    reported("screenshot", b64.as_str())
}

/// The success of closing a context.
pub fn closed() -> (r: ToolResult)
    ensures
        !r.is_error,
        r.content@ == json_pair("closed"@, "true"@),
{
    reported("closed", "true")
}

/// A step of driving the browser that can fail.
pub enum BrowserStep {
    Launch,
    BrowserLaunch,
    Context,
    Page,
    Navigate,
    Click,
    Fill,
    Text,
    Screenshot,
}

/// What a failure of `step` is called.
pub open spec fn step_name(step: BrowserStep) -> Seq<char> {
    match step {
        BrowserStep::Launch => "Launch"@,
        BrowserStep::BrowserLaunch => "Browser launch"@,
        BrowserStep::Context => "Context"@,
        BrowserStep::Page => "Page"@,
        BrowserStep::Navigate => "Navigate"@,
        BrowserStep::Click => "Click"@,
        BrowserStep::Fill => "Fill"@,
        BrowserStep::Text => "Text"@,
        BrowserStep::Screenshot => "Screenshot"@,
    }
}

/// The error result of `step` failing with the error text `cause`.
pub fn step_failed(step: BrowserStep, cause: &str) -> (r: ToolResult)
    ensures
        r.is_error,
        r.content@ == step_name(step) + " failed: "@ + cause@,
{
    let name = match step {
        BrowserStep::Launch => String::from_str("Launch"),
        BrowserStep::BrowserLaunch => String::from_str("Browser launch"),
        BrowserStep::Context => String::from_str("Context"),
        BrowserStep::Page => String::from_str("Page"),
        BrowserStep::Navigate => String::from_str("Navigate"),
        BrowserStep::Click => String::from_str("Click"),
        BrowserStep::Fill => String::from_str("Fill"),
        BrowserStep::Text => String::from_str("Text"),
        BrowserStep::Screenshot => String::from_str("Screenshot"),
    };
    ToolResult::error(name.concat(" failed: ").concat(cause))
}

/// The error result of input that is not a well-formed tool input.
pub fn invalid_input(cause: &str) -> (r: ToolResult)
    ensures
        r.is_error,
        r.content@ == "Invalid input: "@ + cause@,
{
    ToolResult::error(String::from_str("Invalid input: ").concat(cause))
}

/// Whether a context can take a page: `known` is `None` where no context has
/// the id, else whether it holds a browser context.
pub fn context_ready(known: Option<bool>) -> (r: Result<(), ToolResult>)
    ensures
        known is None ==> (r matches Err(e) && e.is_error && e.content@ == "Context not found"@),
        known == Some(false) ==> (r matches Err(e) && e.is_error && e.content@ == "Context None"@),
        known == Some(true) ==> r is Ok,
{
    match known {
        None => Err(ToolResult::error(String::from_str("Context not found"))),
        Some(false) => Err(ToolResult::error(String::from_str("Context None"))),
        Some(true) => Ok(()),
    }
}

/// Whether a context has a page to act on: `known` is `None` where no context
/// has the id, else whether it has navigated to a page.
pub fn page_ready(known: Option<bool>) -> (r: Result<(), ToolResult>)
    ensures
        known is None ==> (r matches Err(e) && e.is_error && e.content@ == "Context not found"@),
        known == Some(false) ==> (r matches Err(e) && e.is_error && e.content@ == "No page"@),
        known == Some(true) ==> r is Ok,
{
    match known {
        None => Err(ToolResult::error(String::from_str("Context not found"))),
        Some(false) => Err(ToolResult::error(String::from_str("No page"))),
        Some(true) => Ok(()),
    }
}

/// Each known action with the fields it needs is planned with those fields
/// as given, each under its own name: a fill types the input's text into the
/// input's selector; a known action other than launch without a context id is
/// refused for it.
pub proof fn law_plan_keeps_the_fields(
    url: Option<Seq<char>>,
    selector: Option<Seq<char>>,
    text: Option<Seq<char>>,
    context_id: Option<Seq<char>>,
)
    ensures
        planned("launch"@, url, selector, text, context_id) == Ok::<ActionView, Seq<char>>(ActionView::Launch),
        context_id matches Some(c) ==> (url matches Some(u) ==> planned("navigate"@, url, selector, text, context_id)
            == Ok::<ActionView, Seq<char>>(ActionView::Navigate { context_id: c, url: u })),
        context_id matches Some(c) ==> (selector matches Some(s) ==> planned("click"@, url, selector, text, context_id)
            == Ok::<ActionView, Seq<char>>(ActionView::Click { context_id: c, selector: s })),
        context_id matches Some(c) ==> (selector matches Some(s) ==> (text matches Some(t)
            ==> planned("fill"@, url, selector, text, context_id)
            == Ok::<ActionView, Seq<char>>(ActionView::Fill { context_id: c, selector: s, text: t }))),
        context_id matches Some(c) ==> (selector matches Some(s) ==> planned("text"@, url, selector, text, context_id)
            == Ok::<ActionView, Seq<char>>(ActionView::Text { context_id: c, selector: s })),
        context_id matches Some(c) ==> planned("screenshot"@, url, selector, text, context_id)
            == Ok::<ActionView, Seq<char>>(ActionView::Screenshot { context_id: c }),
        context_id matches Some(c) ==> planned("close"@, url, selector, text, context_id)
            == Ok::<ActionView, Seq<char>>(ActionView::Close { context_id: c }),
        context_id is None ==> planned("fill"@, url, selector, text, context_id)
            == Err::<ActionView, Seq<char>>("context_id required"@),
        context_id is None ==> planned("navigate"@, url, selector, text, context_id)
            == Err::<ActionView, Seq<char>>("context_id required"@),
        context_id is None ==> planned("close"@, url, selector, text, context_id)
            == Err::<ActionView, Seq<char>>("context_id required"@),
        context_id is Some && url is None ==> planned("navigate"@, url, selector, text, context_id)
            == Err::<ActionView, Seq<char>>("url required"@),
        context_id is Some && selector is None ==> planned("click"@, url, selector, text, context_id)
            == Err::<ActionView, Seq<char>>("selector required"@),
        context_id is Some && selector is None ==> planned("fill"@, url, selector, text, context_id)
            == Err::<ActionView, Seq<char>>("selector required"@),
        context_id is Some && selector is Some && text is None ==> planned("fill"@, url, selector, text, context_id)
            == Err::<ActionView, Seq<char>>("text required"@),
{
    reveal_strlit("launch");
    reveal_strlit("navigate");
    reveal_strlit("click");
    reveal_strlit("fill");
    reveal_strlit("text");
    reveal_strlit("screenshot");
    reveal_strlit("close");
    assert("launch"@.len() == 6 && "navigate"@.len() == 8 && "click"@.len() == 5 && "fill"@.len() == 4);
    assert("text"@.len() == 4 && "screenshot"@.len() == 10 && "close"@.len() == 5);
    assert("click"@[2] != "close"@[2]);
    assert("fill"@[0] != "text"@[0]);
    assert("navigate"@ != "launch"@);
    assert("click"@ != "launch"@ && "click"@ != "navigate"@ && "click"@ != "screenshot"@ && "click"@ != "close"@);
}

/// An action the tool does not know is refused, naming it.
pub proof fn law_unknown_action_is_refused(
    action: Seq<char>,
    url: Option<Seq<char>>,
    selector: Option<Seq<char>>,
    text: Option<Seq<char>>,
    context_id: Option<Seq<char>>,
)
    requires
        action != "launch"@,
        action != "navigate"@,
        action != "click"@,
        action != "fill"@,
        action != "text"@,
        action != "screenshot"@,
        action != "close"@,
    ensures
        planned(action, url, selector, text, context_id) == Err::<ActionView, Seq<char>>("Unknown action: "@ + action),
{
}

} // verus!
