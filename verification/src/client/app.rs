//! The client's state and how it changes.
use vstd::prelude::*;
use vstd::string::{StrSliceExecFns, StringExecFns};
use crate::client::commands::{usage_lines, usage_text, UsageError};

verus! {

/// Which panel is focused.
#[derive(Debug, Clone, Copy, PartialEq, Eq, Structural)]
pub enum Panel {
    Log,
    Markets,
    Company,
}

/// The panel after `p` in the cycle Log, Markets, Company.
pub open spec fn panel_after(p: Panel) -> Panel {
    match p {
        Panel::Log => Panel::Markets,
        Panel::Markets => Panel::Company,
        Panel::Company => Panel::Log,
    }
}

/// The panel before `p` in the cycle Log, Markets, Company.
pub open spec fn panel_before(p: Panel) -> Panel {
    match p {
        Panel::Log => Panel::Company,
        Panel::Markets => Panel::Log,
        Panel::Company => Panel::Markets,
    }
}

impl Panel {
    pub fn next(self) -> (r: Panel)
        ensures
            r == panel_after(self),
    {
        match self {
            Panel::Log => Panel::Markets,
            Panel::Markets => Panel::Company,
            Panel::Company => Panel::Log,
        }
    }

    pub fn prev(self) -> (r: Panel)
        ensures
            r == panel_before(self),
    {
        match self {
            Panel::Log => Panel::Company,
            Panel::Markets => Panel::Log,
            Panel::Company => Panel::Markets,
        }
    }
}

/// Going to the previous panel undoes going to the next one, and the other
/// way round.
pub proof fn law_prev_undoes_next(p: Panel)
    ensures
        panel_before(panel_after(p)) == p,
        panel_after(panel_before(p)) == p,
{
}

/// Three steps in either direction come back to the starting panel, passing
/// through every panel on the way.
pub proof fn law_panels_cycle_in_three(p: Panel)
    ensures
        panel_after(panel_after(panel_after(p))) == p,
        panel_before(panel_before(panel_before(p))) == p,
        p != panel_after(p) && p != panel_after(panel_after(p)) && panel_after(p) != panel_after(
            panel_after(p),
        ),
{
}

/// Whether keys edit the command line or act on the screen.
#[derive(Debug, Clone, Copy, PartialEq, Eq, Structural)]
pub enum InputMode {
    Normal,
    Command,
}

/// A market row as displayed.
#[derive(Debug, Clone)]
pub struct MarketRow {
    pub slug: String,
    pub name: String,
    pub price: String,
    pub ema: String,
    pub supply: String,
    pub demand: String,
}

/// A company summary as displayed.
#[derive(Debug, Clone)]
pub struct CompanyInfo {
    pub id: String,
    pub name: String,
    pub treasury: String,
    pub workers: String,
    pub capacity: String,
    pub factories: String,
    pub tech_level: String,
}

/// An inventory item as displayed.
#[derive(Debug, Clone)]
pub struct InventoryItem {
    pub resource: String,
    pub quantity: String,
}

/// The client's state.
pub struct App {
    pub server_url: String,
    pub input: Vec<char>,
    pub input_mode: InputMode,
    pub active_panel: Panel,
    // Authentication.
    pub token: Option<String>,
    pub player_id: Option<u128>,
    pub username: Option<String>,
    // The selected company.
    pub active_company_id: Option<u128>,
    pub active_company: Option<CompanyInfo>,
    pub inventory: Vec<InventoryItem>,
    pub markets: Vec<MarketRow>,
    // The log panel.
    pub log_messages: Vec<String>,
    pub log_scroll: usize,
    // Command history.
    pub command_history: Vec<String>,
    pub history_index: usize,
    /// Event-loop rounds, for the periodic market refresh.
    pub tick_counter: u64,
}

/// The texts of a list of strings.
pub open spec fn texts(v: Seq<String>) -> Seq<Seq<char>> {
    v.map_values(|s: String| s@)
}

/// `n - 1`, or 0 when `n` is 0.
pub open spec fn last_index(n: int) -> int {
    if n > 0 {
        n - 1
    } else {
        0
    }
}

/// A log line: the time stamp in brackets, a space, the message.
pub open spec fn log_line(stamp: Seq<char>, msg: Seq<char>) -> Seq<char> {
    seq!['['] + stamp + seq![']', ' '] + msg
}

/// A reported answer: `OK: ` or `ERR: ` before the message.
pub open spec fn report_text(success: bool, message: Seq<char>) -> Seq<char> {
    if success {
        seq!['O', 'K', ':', ' '] + message
    } else {
        seq!['E', 'R', 'R', ':', ' '] + message
    }
}

/// The log scroll position after a line is added to a log of `len` lines
/// scrolled to `scroll`: it follows the end when it was within three lines
/// of it.
pub open spec fn scroll_after_line(scroll: int, len: int) -> int {
    if scroll + 3 >= len {
        len
    } else {
        scroll
    }
}

/// A key as the client sees it.
#[derive(Debug, Clone, Copy, PartialEq, Eq, Structural)]
pub enum Key {
    Char(char),
    Enter,
    Backspace,
    Esc,
    Tab,
    BackTab,
    Up,
    Down,
    Home,
    End,
    PageUp,
    PageDown,
    Other,
}

/// A key press, with whether Control was held.
#[derive(Debug, Clone, Copy, PartialEq, Eq, Structural)]
pub struct KeyPress {
    pub key: Key,
    pub ctrl: bool,
}

/// What the event loop does after a key.
#[derive(Debug)]
pub enum KeyOutcome {
    /// Keep going.
    Continue,
    /// Leave the client.
    Quit,
    /// Run the command line given.
    Execute(String),
}

/// The part of the client's state that keys change.
pub struct AppView {
    pub input: Seq<char>,
    pub mode: InputMode,
    pub panel: Panel,
    pub scroll: int,
    pub log_len: int,
    pub history: Seq<Seq<char>>,
    pub history_index: int,
}

/// What a key asks of the event loop.
pub enum KeyReply {
    Continue,
    Quit,
    Execute(Seq<char>),
}

pub open spec fn app_view(a: App) -> AppView {
    AppView {
        input: a.input@,
        mode: a.input_mode,
        panel: a.active_panel,
        scroll: a.log_scroll as int,
        log_len: a.log_messages@.len() as int,
        history: texts(a.command_history@),
        history_index: a.history_index as int,
    }
}

/// The scroll position a page down from `scroll` in a log of `len` lines.
pub open spec fn page_down(scroll: int, len: int) -> int {
    if scroll + 10 <= last_index(len) {
        scroll + 10
    } else {
        last_index(len)
    }
}

/// `v` with the scroll position replaced.
pub open spec fn scrolled(v: AppView, scroll: int) -> AppView {
    AppView { scroll, ..v }
}

/// `v` with the command line replaced.
pub open spec fn with_input(v: AppView, input: Seq<char>) -> AppView {
    AppView { input, ..v }
}

/// A key in normal mode: `:` or `/` open the command line, Tab and
/// Shift+Tab cycle the panels, `q` quits, `?` runs `help`, the arrows and
/// Home and End scroll the log.
pub open spec fn normal_key(v: AppView, key: Key) -> (AppView, KeyReply) {
    if key == Key::Char(':') || key == Key::Char('/') {
        (AppView { mode: InputMode::Command, ..v }, KeyReply::Continue)
    } else if key == Key::Tab {
        (AppView { panel: panel_after(v.panel), ..v }, KeyReply::Continue)
    } else if key == Key::BackTab {
        (AppView { panel: panel_before(v.panel), ..v }, KeyReply::Continue)
    } else if key == Key::Char('q') {
        (v, KeyReply::Quit)
    } else if key == Key::Char('?') {
        (v, KeyReply::Execute(seq!['h', 'e', 'l', 'p']))
    } else if key == Key::Up {
        (scrolled(v, if v.scroll > 0 { v.scroll - 1 } else { 0 }), KeyReply::Continue)
    } else if key == Key::Down {
        (
            scrolled(v, if v.scroll < last_index(v.log_len) { v.scroll + 1 } else { v.scroll }),
            KeyReply::Continue,
        )
    } else if key == Key::Home {
        (scrolled(v, 0), KeyReply::Continue)
    } else if key == Key::End {
        (scrolled(v, last_index(v.log_len)), KeyReply::Continue)
    } else {
        (v, KeyReply::Continue)
    }
}

/// A key in command mode: Enter runs a non-empty line and records it in the
/// history, characters are typed, Backspace deletes, Esc clears the line and
/// leaves command mode, Up and Down walk the history.
pub open spec fn command_key(v: AppView, key: Key) -> (AppView, KeyReply) {
    match key {
        Key::Enter => if v.input.len() > 0 {
            (
                AppView {
                    input: Seq::empty(),
                    history: v.history.push(v.input),
                    history_index: (v.history.len() + 1) as int,
                    ..v
                },
                KeyReply::Execute(v.input),
            )
        } else {
            (with_input(v, Seq::empty()), KeyReply::Continue)
        },
        Key::Char(c) => (with_input(v, v.input.push(c)), KeyReply::Continue),
        Key::Backspace => (
            with_input(v, if v.input.len() > 0 { v.input.drop_last() } else { v.input }),
            KeyReply::Continue,
        ),
        Key::Esc => (
            AppView { input: Seq::empty(), mode: InputMode::Normal, ..v },
            KeyReply::Continue,
        ),
        Key::Up => if v.history_index > 0 {
            (
                AppView {
                    history_index: v.history_index - 1,
                    input: v.history[v.history_index - 1],
                    ..v
                },
                KeyReply::Continue,
            )
        } else {
            (v, KeyReply::Continue)
        },
        Key::Down => if v.history_index < v.history.len() {
            (
                AppView {
                    history_index: v.history_index + 1,
                    input: if v.history_index + 1 < v.history.len() {
                        v.history[v.history_index + 1]
                    } else {
                        Seq::empty()
                    },
                    ..v
                },
                KeyReply::Continue,
            )
        } else {
            (v, KeyReply::Continue)
        },
        _ => (v, KeyReply::Continue),
    }
}

/// A key in either mode: Ctrl+C quits and PageUp and PageDown scroll the log
/// in both; the other keys go by the mode.
pub open spec fn key_step(v: AppView, press: KeyPress) -> (AppView, KeyReply) {
    if press.ctrl && press.key == Key::Char('c') {
        (v, KeyReply::Quit)
    } else if press.key == Key::PageUp {
        (scrolled(v, if v.scroll >= 10 { v.scroll - 10 } else { 0 }), KeyReply::Continue)
    } else if press.key == Key::PageDown {
        (scrolled(v, page_down(v.scroll, v.log_len)), KeyReply::Continue)
    } else {
        match v.mode {
            InputMode::Normal => normal_key(v, press.key),
            InputMode::Command => command_key(v, press.key),
        }
    }
}

/// `out` is what `reply` asks for.
pub open spec fn replies(out: KeyOutcome, reply: KeyReply) -> bool {
    match reply {
        KeyReply::Continue => out is Continue,
        KeyReply::Quit => out is Quit,
        KeyReply::Execute(line) => out matches KeyOutcome::Execute(s) && s@ == line,
    }
}

/// The characters of `s`.
fn chars_of(s: &str) -> (r: Vec<char>)
    ensures
        r@ == s@,
{
    let n = s.unicode_len();
    let mut out: Vec<char> = Vec::new();
    let mut i: usize = 0;
    while i < n
        invariant
            n == s@.len(),
            i <= n,
            out@ == s@.take(i as int),
        decreases n - i,
    {
        out.push(s.get_char(i));
        proof {
            assert(out@ =~= s@.take(i as int + 1));
        }
        i = i + 1;
    }
    proof {
        assert(s@.take(n as int) =~= s@);
    }
    out
}

/// The string of the characters `chars` (`Iterator::collect` into a `String`).
#[verifier::external_body]
fn text_of(chars: &Vec<char>) -> (r: String)
    ensures
        r@ == chars@,
{
    chars.iter().collect()
}

/// The lines of the command reference.
pub open spec fn help_text() -> Seq<Seq<char>> {
    seq![
        "==================================================="@,
        "                  ECONWAR COMMANDS                  "@,
        "==================================================="@,
        ""@,
        "  GETTING STARTED"@,
        "  register <user> <pass>    Create a new account"@,
        "  login <user> <pass>       Login to existing account"@,
        "  logout                    Logout"@,
        ""@,
        "  COMPANY MANAGEMENT"@,
        "  create company <name>     Create a new company"@,
        "  companies (co)            List your companies"@,
        "  select <id>               Select active company"@,
        "  fund <amount>             Transfer credits to company"@,
        "  hire <count>              Hire workers"@,
        "  build factory             Build a new factory"@,
        "  research                  Upgrade tech level"@,
        ""@,
        "  MARKET & TRADING"@,
        "  markets (m)               Show all market prices"@,
        "  scan <resource>           Detailed market info"@,
        "  buy <qty> <res> <price>   Place buy order"@,
        "  sell <qty> <res> <price>  Place sell order"@,
        "    Example: buy 100 copper 40"@,
        "    Example: sell 50 steel @ 120"@,
        ""@,
        "  PRODUCTION"@,
        "  recipes (r)               List production recipes"@,
        "  produce <recipe> [qty]    Start production"@,
        "    Example: produce smelt_steel 5"@,
        ""@,
        "  INFORMATION"@,
        "  status (st)               Company overview"@,
        "  inventory (inv, i)        View company inventory"@,
        "  balance (bal)             View player balance"@,
        ""@,
        "  INTERFACE"@,
        "  Tab / Shift+Tab           Switch panels"@,
        "  Up/Down                   Scroll log / history"@,
        "  Esc                       Normal mode"@,
        "  : or /                    Enter command mode"@,
        "  clear                     Clear log"@,
        "  Ctrl+C or q               Quit"@,
        "==================================================="@,
    ]
}

/// The command reference, line by line.
fn help_lines() -> (r: Vec<&'static str>)
    ensures
        r@.len() == help_text().len(),
        forall|k: int| 0 <= k < r@.len() ==> (#[trigger] r@[k])@ == help_text()[k],
{
    let v: Vec<&'static str> = vec![
        "===================================================",
        "                  ECONWAR COMMANDS                  ",
        "===================================================",
        "",
        "  GETTING STARTED",
        "  register <user> <pass>    Create a new account",
        "  login <user> <pass>       Login to existing account",
        "  logout                    Logout",
        "",
        "  COMPANY MANAGEMENT",
        "  create company <name>     Create a new company",
        "  companies (co)            List your companies",
        "  select <id>               Select active company",
        "  fund <amount>             Transfer credits to company",
        "  hire <count>              Hire workers",
        "  build factory             Build a new factory",
        "  research                  Upgrade tech level",
        "",
        "  MARKET & TRADING",
        "  markets (m)               Show all market prices",
        "  scan <resource>           Detailed market info",
        "  buy <qty> <res> <price>   Place buy order",
        "  sell <qty> <res> <price>  Place sell order",
        "    Example: buy 100 copper 40",
        "    Example: sell 50 steel @ 120",
        "",
        "  PRODUCTION",
        "  recipes (r)               List production recipes",
        "  produce <recipe> [qty]    Start production",
        "    Example: produce smelt_steel 5",
        "",
        "  INFORMATION",
        "  status (st)               Company overview",
        "  inventory (inv, i)        View company inventory",
        "  balance (bal)             View player balance",
        "",
        "  INTERFACE",
        "  Tab / Shift+Tab           Switch panels",
        "  Up/Down                   Scroll log / history",
        "  Esc                       Normal mode",
        "  : or /                    Enter command mode",
        "  clear                     Clear log",
        "  Ctrl+C or q               Quit",
        "===================================================",
    ];
    v
}

/// `after` is `before` with `lines` logged in turn, each under its own time
/// stamp, and the view following the log as `log` makes it.
pub open spec fn logged(before: App, after: App, lines: Seq<Seq<char>>) -> bool {
    let n0 = before.log_messages@.len();
    &&& after.log_messages@.len() == n0 + lines.len()
    &&& forall|k: int| 0 <= k < n0 ==> (#[trigger] after.log_messages@[k])@ == before.log_messages@[k]@
    &&& forall|k: int|
        0 <= k < lines.len() ==> stamped((#[trigger] after.log_messages@[n0 + k])@, lines[k])
    &&& after.log_scroll == scroll_after_lines(before.log_scroll as int, n0 as int, lines.len())
}

/// Owned copies of `lines`.
fn owned_lines(lines: &Vec<&str>) -> (r: Vec<String>)
    ensures
        r@.len() == lines@.len(),
        forall|k: int| 0 <= k < r@.len() ==> (#[trigger] r@[k])@ == lines@[k]@,
{
    let mut out: Vec<String> = Vec::new();
    let mut i: usize = 0;
    while i < lines.len()
        invariant
            i <= lines@.len(),
            out@.len() == i,
            forall|k: int| 0 <= k < i ==> (#[trigger] out@[k])@ == lines@[k]@,
        decreases lines@.len() - i,
    {
        out.push(lines[i].to_owned());
        i = i + 1;
    }
    out
}

/// Where the log view stands after `n` more lines were logged.
pub open spec fn scroll_after_lines(scroll: int, len: int, n: nat) -> int
    decreases n,
{
    if n == 0 {
        scroll
    } else {
        scroll_after_line(scroll_after_lines(scroll, len, (n - 1) as nat), len + n - 1)
    }
}

/// `line` is `msg` logged under some time stamp.
pub open spec fn stamped(line: Seq<char>, msg: Seq<char>) -> bool {
    exists|stamp: Seq<char>| line == log_line(stamp, msg)
}

impl App {
    /// A fresh client: command mode, log panel focused, nothing loaded.
    pub fn new(server_url: String) -> (r: App)
        ensures
            r.server_url@ == server_url@,
            r.input@ == Seq::<char>::empty(),
            r.input_mode == InputMode::Command,
            r.active_panel == Panel::Log,
            r.token is None,
            r.player_id is None,
            r.username is None,
            r.active_company_id is None,
            r.active_company is None,
            r.inventory@.len() == 0,
            r.markets@.len() == 0,
            r.log_messages@.len() == 0,
            r.log_scroll == 0,
            r.command_history@.len() == 0,
            r.history_index == 0,
            r.tick_counter == 0,
    {
        App {
            server_url,
            input: Vec::new(),
            input_mode: InputMode::Command,
            active_panel: Panel::Log,
            token: None,
            player_id: None,
            username: None,
            active_company_id: None,
            active_company: None,
            inventory: Vec::new(),
            markets: Vec::new(),
            log_messages: Vec::new(),
            log_scroll: 0,
            command_history: Vec::new(),
            history_index: 0,
            tick_counter: 0,
        }
    }

    /// Whether the log is scrolled to within three lines of its end.
    pub fn is_at_bottom(&self) -> (r: bool)
        ensures
            r == (self.log_scroll + 3 >= self.log_messages@.len()),
    {
        let len = self.log_messages.len();
        len <= 3 || self.log_scroll >= len - 3
    }

    /// Adds the line `[stamp] msg` to the log; the view follows the end of
    /// the log when it was at the bottom.
    pub fn log_at(&mut self, stamp: &str, msg: &str)
        ensures
            texts(final(self).log_messages@) == texts(old(self).log_messages@).push(
                log_line(stamp@, msg@),
            ),
            final(self).log_scroll == scroll_after_line(
                old(self).log_scroll as int,
                old(self).log_messages@.len() as int,
            ),
            *final(self) == (App {
                log_messages: final(self).log_messages,
                log_scroll: final(self).log_scroll,
                ..*old(self)
            }),
    {
        let was_at_bottom = self.is_at_bottom();
        let mut line = String::from_str("[");
        line.append(stamp);
        line.append("] ");
        line.append(msg);
        proof {
            reveal_strlit("[");
            reveal_strlit("] ");
            assert(line@ =~= log_line(stamp@, msg@));
        }
        self.log_messages.push(line);
        proof {
            assert(texts(self.log_messages@) =~= texts(old(self).log_messages@).push(
                log_line(stamp@, msg@),
            ));
        }
        if was_at_bottom {
            self.log_scroll = self.log_messages.len() - 1;
        }
    }

    /// Adds `msg` to the log, stamped with the local time of day.  Nothing
    /// is stated of the stamp: it is the clock's.
    pub fn log(&mut self, msg: &str)
        ensures
            final(self).log_messages@.len() == old(self).log_messages@.len() + 1,
            forall|k: int|
                0 <= k < old(self).log_messages@.len() ==> (#[trigger] final(self).log_messages@[k])@
                    == old(self).log_messages@[k]@,
            exists|stamp: Seq<char>|
                (#[trigger] final(self).log_messages@.last())@ == log_line(stamp, msg@),
            final(self).log_scroll == scroll_after_line(
                old(self).log_scroll as int,
                old(self).log_messages@.len() as int,
            ),
            *final(self) == (App {
                log_messages: final(self).log_messages,
                log_scroll: final(self).log_scroll,
                ..*old(self)
            }),
    {
        let stamp = clock_text();
        self.log_at(stamp.as_str(), msg);
        proof {
            let n = old(self).log_messages@.len() as int;
            assert(texts(self.log_messages@).len() == self.log_messages@.len());
            assert(texts(old(self).log_messages@).len() == n);
            assert(texts(self.log_messages@)[n] == log_line(stamp@, msg@));
            assert(self.log_messages@.last()@ == texts(self.log_messages@)[n]);
            assert forall|k: int| 0 <= k < n implies (#[trigger] self.log_messages@[k])@
                == old(self).log_messages@[k]@ by {
                assert(texts(self.log_messages@)[k] == texts(old(self).log_messages@)[k]);
            }
        }
    }

    /// Logs `msg` as a success: `OK: msg`.
    pub fn log_success(&mut self, msg: &str)
        ensures
            final(self).log_messages@.len() == old(self).log_messages@.len() + 1,
            forall|k: int|
                0 <= k < old(self).log_messages@.len() ==> (#[trigger] final(self).log_messages@[k])@
                    == old(self).log_messages@[k]@,
            exists|stamp: Seq<char>|
                (#[trigger] final(self).log_messages@.last())@ == log_line(
                    stamp,
                    seq!['O', 'K', ':', ' '] + msg@,
                ),
            *final(self) == (App {
                log_messages: final(self).log_messages,
                log_scroll: final(self).log_scroll,
                ..*old(self)
            }),
    {
        let mut line = String::from_str("OK: ");
        line.append(msg);
        proof {
            reveal_strlit("OK: ");
            assert(line@ =~= seq!['O', 'K', ':', ' '] + msg@);
        }
        self.log(line.as_str());
    }

    /// Logs `msg` as an error: `ERR: msg`.
    pub fn log_error(&mut self, msg: &str)
        ensures
            final(self).log_messages@.len() == old(self).log_messages@.len() + 1,
            forall|k: int|
                0 <= k < old(self).log_messages@.len() ==> (#[trigger] final(self).log_messages@[k])@
                    == old(self).log_messages@[k]@,
            exists|stamp: Seq<char>|
                (#[trigger] final(self).log_messages@.last())@ == log_line(
                    stamp,
                    seq!['E', 'R', 'R', ':', ' '] + msg@,
                ),
            *final(self) == (App {
                log_messages: final(self).log_messages,
                log_scroll: final(self).log_scroll,
                ..*old(self)
            }),
    {
        let mut line = String::from_str("ERR: ");
        line.append(msg);
        proof {
            reveal_strlit("ERR: ");
            assert(line@ =~= seq!['E', 'R', 'R', ':', ' '] + msg@);
        }
        self.log(line.as_str());
    }

    pub fn next_panel(&mut self)
        ensures
            final(self).active_panel == panel_after(old(self).active_panel),
            *final(self) == (App { active_panel: final(self).active_panel, ..*old(self) }),
    {
        self.active_panel = self.active_panel.next();
    }

    pub fn prev_panel(&mut self)
        ensures
            final(self).active_panel == panel_before(old(self).active_panel),
            *final(self) == (App { active_panel: final(self).active_panel, ..*old(self) }),
    {
        self.active_panel = self.active_panel.prev();
    }

    /// One line up, stopping at the top.
    pub fn scroll_up(&mut self)
        ensures
            final(self).log_scroll == if old(self).log_scroll > 0 {
                old(self).log_scroll - 1
            } else {
                0
            },
            *final(self) == (App { log_scroll: final(self).log_scroll, ..*old(self) }),
    {
        self.log_scroll = self.log_scroll.saturating_sub(1);
    }

    /// One line down, stopping at the last line.
    pub fn scroll_down(&mut self)
        ensures
            final(self).log_scroll == if old(self).log_scroll < last_index(
                old(self).log_messages@.len() as int,
            ) {
                old(self).log_scroll + 1
            } else {
                old(self).log_scroll as int
            },
            *final(self) == (App { log_scroll: final(self).log_scroll, ..*old(self) }),
    {
        if self.log_scroll < self.log_messages.len().saturating_sub(1) {
            self.log_scroll = self.log_scroll + 1;
        }
    }

    /// A page (ten lines) up, stopping at the top.
    pub fn scroll_up_page(&mut self)
        ensures
            final(self).log_scroll == if old(self).log_scroll >= 10 {
                old(self).log_scroll - 10
            } else {
                0
            },
            *final(self) == (App { log_scroll: final(self).log_scroll, ..*old(self) }),
    {
        self.log_scroll = self.log_scroll.saturating_sub(10);
    }

    /// A page (ten lines) down, stopping at the last line.
    pub fn scroll_down_page(&mut self)
        ensures
            final(self).log_scroll == if old(self).log_scroll + 10 <= last_index(
                old(self).log_messages@.len() as int,
            ) {
                old(self).log_scroll + 10
            } else {
                last_index(old(self).log_messages@.len() as int)
            },
            *final(self) == (App { log_scroll: final(self).log_scroll, ..*old(self) }),
    {
        let last = self.log_messages.len().saturating_sub(1);
        if self.log_scroll <= last && last - self.log_scroll >= 10 {
            self.log_scroll = self.log_scroll + 10;
        } else {
            self.log_scroll = last;
        }
    }

    /// Applies a key press to the client's state and says what the event
    /// loop does next.
    pub fn handle_key(&mut self, press: KeyPress) -> (r: KeyOutcome)
        requires
            old(self).history_index <= old(self).command_history@.len(),
        ensures
            final(self).history_index <= final(self).command_history@.len(),
            app_view(*final(self)) == key_step(app_view(*old(self)), press).0,
            replies(r, key_step(app_view(*old(self)), press).1),
            *final(self) == (App {
                input: final(self).input,
                input_mode: final(self).input_mode,
                active_panel: final(self).active_panel,
                log_scroll: final(self).log_scroll,
                command_history: final(self).command_history,
                history_index: final(self).history_index,
                ..*old(self)
            }),
    {
        let ghost v = app_view(*old(self));
        if press.ctrl && press.key == Key::Char('c') {
            return KeyOutcome::Quit;
        }
        match press.key {
            Key::PageUp => {
                self.scroll_up_page();
                return KeyOutcome::Continue;
            },
            Key::PageDown => {
                self.scroll_down_page();
                return KeyOutcome::Continue;
            },
            _ => {},
        }
        match self.input_mode {
            InputMode::Normal => {
                if press.key == Key::Char(':') || press.key == Key::Char('/') {
                    self.input_mode = InputMode::Command;
                } else if press.key == Key::Tab {
                    self.next_panel();
                } else if press.key == Key::BackTab {
                    self.prev_panel();
                } else if press.key == Key::Char('q') {
                    return KeyOutcome::Quit;
                } else if press.key == Key::Char('?') {
                    let line = String::from_str("help");
                    proof {
                        reveal_strlit("help");
                        assert(line@ =~= seq!['h', 'e', 'l', 'p']);
                    }
                    return KeyOutcome::Execute(line);
                } else if press.key == Key::Up {
                    self.scroll_up();
                } else if press.key == Key::Down {
                    self.scroll_down();
                } else if press.key == Key::Home {
                    self.log_scroll = 0;
                } else if press.key == Key::End {
                    self.scroll_to_bottom();
                }
                KeyOutcome::Continue
            },
            InputMode::Command => {
                match press.key {
                    Key::Enter => {
                        let typed = self.input.len() > 0;
                        let line = text_of(&self.input);
                        self.input = Vec::new();
                        if typed {
                            self.command_history.push(line.clone());
                            self.history_index = self.command_history.len();
                            proof {
                                assert(texts(self.command_history@) =~= v.history.push(v.input));
                            }
                            return KeyOutcome::Execute(line);
                        }
                    },
                    Key::Char(c) => {
                        self.input.push(c);
                    },
                    Key::Backspace => {
                        self.input.pop();
                    },
                    Key::Esc => {
                        self.input = Vec::new();
                        self.input_mode = InputMode::Normal;
                    },
                    Key::Up => {
                        if self.history_index > 0 {
                            self.history_index = self.history_index - 1;
                            self.input = chars_of(self.command_history[self.history_index].as_str());
                        }
                    },
                    Key::Down => {
                        if self.history_index < self.command_history.len() {
                            self.history_index = self.history_index + 1;
                            if self.history_index < self.command_history.len() {
                                self.input = chars_of(
                                    self.command_history[self.history_index].as_str(),
                                );
                            } else {
                                self.input = Vec::new();
                            }
                        }
                    },
                    _ => {},
                }
                KeyOutcome::Continue
            },
        }
    }

    /// Counts one round of the event loop and says whether the markets are
    /// due for a refresh: every twentieth round, when logged in.
    pub fn refresh_due(&mut self) -> (r: bool)
        requires
            old(self).tick_counter < u64::MAX,
        ensures
            final(self).tick_counter == old(self).tick_counter + 1,
            r == (final(self).tick_counter % 20 == 0 && old(self).token is Some),
            *final(self) == (App { tick_counter: final(self).tick_counter, ..*old(self) }),
    {
        self.tick_counter = self.tick_counter + 1;
        self.tick_counter % 20 == 0 && self.token.is_some()
    }

    /// Forgets the session and the selected company.
    pub fn logout(&mut self)
        ensures
            final(self).token is None,
            final(self).player_id is None,
            final(self).username is None,
            final(self).active_company_id is None,
            final(self).active_company is None,
            final(self).log_messages == old(self).log_messages,
            final(self).input_mode == old(self).input_mode,
    {
        self.token = None;
        self.player_id = None;
        self.username = None;
        self.active_company_id = None;
        self.active_company = None;
    }

    /// Empties the log.
    pub fn clear_log(&mut self)
        ensures
            final(self).log_messages@.len() == 0,
            final(self).log_scroll == 0,
            final(self).history_index == old(self).history_index,
            final(self).command_history == old(self).command_history,
    {
        self.log_messages = Vec::new();
        self.log_scroll = 0;
    }

    /// Logs each of `lines` in turn, each after `prefix`.
    pub fn log_lines(&mut self, prefix: &str, lines: &Vec<String>)
        ensures
            final(self).log_messages@.len() == old(self).log_messages@.len() + lines@.len(),
            forall|k: int|
                0 <= k < old(self).log_messages@.len() ==> (#[trigger] final(self).log_messages@[k])@
                    == old(self).log_messages@[k]@,
            forall|k: int|
                0 <= k < lines@.len() ==> stamped(
                    (#[trigger] final(self).log_messages@[old(self).log_messages@.len() + k])@,
                    prefix@ + lines@[k]@,
                ),
            final(self).log_scroll == scroll_after_lines(
                old(self).log_scroll as int,
                old(self).log_messages@.len() as int,
                lines@.len(),
            ),
            *final(self) == (App {
                log_messages: final(self).log_messages,
                log_scroll: final(self).log_scroll,
                ..*old(self)
            }),
    {
        let ghost start = *self;
        let ghost n0 = self.log_messages@.len();
        let mut i: usize = 0;
        while i < lines.len()
            invariant
                i <= lines@.len(),
                n0 == start.log_messages@.len(),
                self.log_messages@.len() == n0 + i,
                forall|k: int|
                    0 <= k < n0 ==> (#[trigger] self.log_messages@[k])@ == start.log_messages@[k]@,
                forall|k: int|
                    0 <= k < i ==> stamped(
                        (#[trigger] self.log_messages@[n0 + k])@,
                        prefix@ + lines@[k]@,
                    ),
                self.log_scroll == scroll_after_lines(start.log_scroll as int, n0 as int, i as nat),
                *self == (App {
                    log_messages: self.log_messages,
                    log_scroll: self.log_scroll,
                    ..start
                }),
            decreases lines@.len() - i,
        {
            let ghost before = self.log_messages@;
            let mut msg = prefix.to_owned();
            msg.append(lines[i].as_str());
            self.log(msg.as_str());
            proof {
                assert(stamped(self.log_messages@[n0 + i]@, prefix@ + lines@[i as int]@));
                assert forall|k: int| 0 <= k < n0 implies (#[trigger] self.log_messages@[k])@
                    == start.log_messages@[k]@ by {
                    assert(self.log_messages@[k]@ == before[k]@);
                }
                assert forall|k: int| 0 <= k < i + 1 implies stamped(
                    (#[trigger] self.log_messages@[n0 + k])@,
                    prefix@ + lines@[k]@,
                ) by {
                    if k < i {
                        assert(self.log_messages@[n0 + k]@ == before[n0 + k]@);
                    }
                }
            }
            i = i + 1;
        }
    }

    /// Logs, as errors, how the command that `e` refused is written.
    pub fn show_usage(&mut self, e: UsageError)
        ensures
            final(self).log_messages@.len() == old(self).log_messages@.len() + usage_text(e).len(),
            forall|k: int|
                0 <= k < old(self).log_messages@.len() ==> (#[trigger] final(self).log_messages@[k])@
                    == old(self).log_messages@[k]@,
            forall|k: int|
                0 <= k < usage_text(e).len() ==> stamped(
                    (#[trigger] final(self).log_messages@[old(self).log_messages@.len() + k])@,
                    report_text(false, usage_text(e)[k]),
                ),
            final(self).log_scroll == scroll_after_lines(
                old(self).log_scroll as int,
                old(self).log_messages@.len() as int,
                usage_text(e).len(),
            ),
            *final(self) == (App {
                log_messages: final(self).log_messages,
                log_scroll: final(self).log_scroll,
                ..*old(self)
            }),
    {
        let lines = owned_lines(&usage_lines(e));
        self.log_lines("ERR: ", &lines);
        proof {
            reveal_strlit("ERR: ");
            let n0 = old(self).log_messages@.len();
            assert forall|k: int| 0 <= k < usage_text(e).len() implies stamped(
                (#[trigger] self.log_messages@[n0 + k])@,
                report_text(false, usage_text(e)[k]),
            ) by {
                assert(lines@[k]@ == usage_text(e)[k]);
                assert("ERR: "@ + lines@[k]@ =~= report_text(false, usage_text(e)[k]));
            }
        }
    }

    /// Logs each of `lines` in turn.
    pub fn log_texts(&mut self, lines: &Vec<String>)
        ensures
            logged(*old(self), *final(self), lines@.map_values(|l: String| l@)),
            *final(self) == (App {
                log_messages: final(self).log_messages,
                log_scroll: final(self).log_scroll,
                ..*old(self)
            }),
    {
        self.log_lines("", lines);
        proof {
            reveal_strlit("");
            let n0 = old(self).log_messages@.len();
            let texts = lines@.map_values(|l: String| l@);
            assert forall|k: int| 0 <= k < texts.len() implies stamped(
                (#[trigger] self.log_messages@[n0 + k])@,
                texts[k],
            ) by {
                assert(""@ + lines@[k]@ =~= texts[k]);
            }
        }
    }

    /// Logs the command reference.
    pub fn cmd_help(&mut self)
        ensures
            final(self).log_messages@.len() == old(self).log_messages@.len() + help_text().len(),
            forall|k: int|
                0 <= k < old(self).log_messages@.len() ==> (#[trigger] final(self).log_messages@[k])@
                    == old(self).log_messages@[k]@,
            forall|k: int|
                0 <= k < help_text().len() ==> stamped(
                    (#[trigger] final(self).log_messages@[old(self).log_messages@.len() + k])@,
                    help_text()[k],
                ),
            final(self).log_scroll == scroll_after_lines(
                old(self).log_scroll as int,
                old(self).log_messages@.len() as int,
                help_text().len(),
            ),
            *final(self) == (App {
                log_messages: final(self).log_messages,
                log_scroll: final(self).log_scroll,
                ..*old(self)
            }),
    {
        let lines = owned_lines(&help_lines());
        self.log_lines("", &lines);
        proof {
            reveal_strlit("");
            let n0 = old(self).log_messages@.len();
            assert forall|k: int| 0 <= k < help_text().len() implies stamped(
                (#[trigger] self.log_messages@[n0 + k])@,
                help_text()[k],
            ) by {
                assert(lines@[k]@ == help_text()[k]);
                assert(""@ + lines@[k]@ =~= help_text()[k]);
            }
        }
    }

    /// The player and the selected company, for commands that act on a
    /// company; otherwise logs what is missing (the login first).
    pub fn require_company(&mut self) -> (r: Option<(u128, u128)>)
        ensures
            match (old(self).player_id, old(self).active_company_id) {
                (Some(p), Some(c)) => r == Some((p, c)) && final(self).log_messages
                    == old(self).log_messages,
                _ => r is None && final(self).log_messages@.len() == old(
                    self,
                ).log_messages@.len() + 1,
            },
            final(self).player_id == old(self).player_id,
            final(self).active_company_id == old(self).active_company_id,
    {
        let pid = match self.player_id {
            Some(id) => id,
            None => {
                self.log_error("Login first.");
                return None;
            },
        };
        let cid = match self.active_company_id {
            Some(id) => id,
            None => {
                self.log_error("No company selected. Use 'create company <name>' or 'select <id>'.");
                return None;
            },
        };
        Some((pid, cid))
    }

    /// Logs the server's answer to a command: as a success or as an error.
    pub fn report(&mut self, success: bool, message: &str)
        ensures
            final(self).log_messages@.len() == old(self).log_messages@.len() + 1,
            exists|stamp: Seq<char>|
                final(self).log_messages@.last()@ == #[trigger] log_line(
                    stamp,
                    report_text(success, message@),
                ),
    {
        if success {
            self.log_success(message);
        } else {
            self.log_error(message);
        }
        proof {
            let text = report_text(success, message@);
            let stamp = choose|stamp: Seq<char>| self.log_messages@.last()@ == log_line(stamp, text);
            assert(self.log_messages@.last()@ == log_line(stamp, text));
        }
    }

    /// Jumps to the last line of the log.
    pub fn scroll_to_bottom(&mut self)
        ensures
            final(self).log_scroll == last_index(old(self).log_messages@.len() as int),
            *final(self) == (App { log_scroll: final(self).log_scroll, ..*old(self) }),
    {
        self.log_scroll = self.log_messages.len().saturating_sub(1);
    }
}

/// A time of day as `HH:MM:SS`: two digits each, separated by colons.
pub open spec fn clock_shape(t: Seq<char>) -> bool {
    &&& t.len() == 8
    &&& t[2] == ':'
    &&& t[5] == ':'
    &&& forall|i: int|
        0 <= i < 8 && i != 2 && i != 5 ==> '0' <= #[trigger] t[i] && t[i] <= '9'
}

/// The local time of day (`chrono::Local::now`, formatted with
/// `%H:%M:%S`, each field zero-padded to two digits).  Trusted to have that
/// shape; which time it shows depends on the clock and the machine's time
/// zone and is not stated.
#[verifier::external_body]
fn clock_text() -> (r: String)
    ensures
        clock_shape(r@),
{
    chrono::Local::now().format("%H:%M:%S").to_string()
}

// ── Laws of the keys ───────────────────────────────────────────────────────
/// A plain key press (Control not held).
pub open spec fn plain(key: Key) -> KeyPress {
    KeyPress { key, ctrl: false }
}

/// On the command line, a typed character is appended, and Backspace right
/// after it takes it off again, leaving everything as it was.
pub proof fn law_backspace_undoes_typing(v: AppView, c: char)
    requires
        v.mode == InputMode::Command,
    ensures
        key_step(v, plain(Key::Char(c))).0.input == v.input.push(c),
        key_step(key_step(v, plain(Key::Char(c))).0, plain(Key::Backspace)).0 == v,
{
    let t = key_step(v, plain(Key::Char(c))).0;
    assert(t.input.drop_last() =~= v.input);
}

/// Enter on a non-empty command line runs exactly that line, clears it and
/// records it last in the history, so that Up then brings it back; on an
/// empty line nothing runs.
pub proof fn law_enter_runs_the_line_and_up_recalls_it(v: AppView)
    requires
        v.mode == InputMode::Command,
    ensures
        v.input.len() > 0 ==> {
            let (w, reply) = key_step(v, plain(Key::Enter));
            &&& reply == KeyReply::Execute(v.input)
            &&& w.input.len() == 0
            &&& w.history == v.history.push(v.input)
            &&& w.mode == InputMode::Command
            &&& key_step(w, plain(Key::Up)).0.input == v.input
        },
        v.input.len() == 0 ==> key_step(v, plain(Key::Enter)).1 == KeyReply::Continue,
{
    if v.input.len() > 0 {
        let w = key_step(v, plain(Key::Enter)).0;
        assert(w.history[w.history_index - 1] == v.input);
    }
}

/// Control+C quits in either mode and changes nothing; Esc on the command
/// line clears it and goes back to normal mode.
pub proof fn law_ctrl_c_quits_and_esc_leaves_the_line(v: AppView)
    ensures
        key_step(v, KeyPress { key: Key::Char('c'), ctrl: true }) == (v, KeyReply::Quit),
        v.mode == InputMode::Command ==> {
            let w = key_step(v, plain(Key::Esc)).0;
            &&& w.mode == InputMode::Normal
            &&& w.input.len() == 0
            &&& w.history == v.history
        },
{
}

/// Scrolling keeps the log position within the log: from a position between
/// the first and the last line, every key leaves it there.
pub proof fn law_scrolling_stays_within_the_log(v: AppView, press: KeyPress)
    requires
        0 <= v.scroll <= last_index(v.log_len),
    ensures
        0 <= key_step(v, press).0.scroll <= last_index(v.log_len),
        key_step(v, press).0.log_len == v.log_len,
{
}

} // verus!
