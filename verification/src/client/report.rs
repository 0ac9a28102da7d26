//! What the client logs for the server's answers: the market overview, the
//! selected company's status, an inventory, the player's companies and the
//! recipe book.  The answers are read from the server's JSON around these.
use vstd::prelude::*;
use vstd::string::{StrSliceExecFns, StringExecFns};
use vstd::utf8::{decode_utf8, encode_utf8, encode_utf8_decode_utf8, is_char_boundary};

use crate::client::app::{logged, report_text, App, CompanyInfo, InventoryItem, MarketRow};
use crate::client::commands::{kept_bytes, parse_uuid, truncate_decimal, uuid_text};

verus! {

/// `n` spaces.
pub open spec fn spaces(n: nat) -> Seq<char> {
    Seq::new(n, |i: int| ' ')
}

/// `s` left-aligned in `width` characters, as `{:<width}` writes it.
pub open spec fn pad_end(s: Seq<char>, width: nat) -> Seq<char> {
    if s.len() >= width {
        s
    } else {
        s + spaces((width - s.len()) as nat)
    }
}

/// `s` right-aligned in `width` characters, as `{:>width}` writes it.
pub open spec fn pad_start(s: Seq<char>, width: nat) -> Seq<char> {
    if s.len() >= width {
        s
    } else {
        spaces((width - s.len()) as nat) + s
    }
}

fn spaces_text(n: usize) -> (r: String)
    ensures
        r@ == spaces(n as nat),
{
    let mut out = String::new();
    let mut i: usize = 0;
    while i < n
        invariant
            i <= n,
            out@ == spaces(i as nat),
        decreases n - i,
    {
        out.append(" ");
        proof {
            reveal_strlit(" ");
            assert(out@ =~= spaces((i + 1) as nat));
        }
        i = i + 1;
    }
    out
}

fn pad_end_text(s: &str, width: usize) -> (r: String)
    ensures
        r@ == pad_end(s@, width as nat),
{
    let n = s.unicode_len();
    let mut out = s.to_owned();
    if n < width {
        let fill = spaces_text(width - n);
        out.append(fill.as_str());
    }
    out
}

fn pad_start_text(s: &str, width: usize) -> (r: String)
    ensures
        r@ == pad_start(s@, width as nat),
{
    let n = s.unicode_len();
    if n < width {
        let mut out = spaces_text(width - n);
        out.append(s);
        out
    } else {
        s.to_owned()
    }
}

/// A decimal text as the overview shows it: cut two digits after its point.
pub open spec fn shown_decimal(s: Seq<char>) -> Seq<char> {
    decode_utf8(encode_utf8(s).subrange(0, kept_bytes(encode_utf8(s))))
}

/// The cut that `shown_decimal` makes falls between two characters.
pub open spec fn cut_is_clean(s: Seq<char>) -> bool {
    is_char_boundary(encode_utf8(s), kept_bytes(encode_utf8(s)))
}

fn shown(s: &str) -> (r: String)
    requires
        cut_is_clean(s@),
    ensures
        r@ == shown_decimal(s@),
{
    let r = truncate_decimal(s);
    proof {
        encode_utf8_decode_utf8(r@);
    }
    r
}

/// A line of the market overview: a left-aligned first column of 16
/// characters and four right-aligned ones of 10, each after a space.
pub open spec fn overview_columns(
    c0: Seq<char>,
    c1: Seq<char>,
    c2: Seq<char>,
    c3: Seq<char>,
    c4: Seq<char>,
) -> Seq<char> {
    seq![' '] + pad_end(c0, 16) + seq![' '] + pad_start(c1, 10) + seq![' '] + pad_start(c2, 10)
        + seq![' '] + pad_start(c3, 10) + seq![' '] + pad_start(c4, 10)
}

fn overview_line(c0: &str, c1: &str, c2: &str, c3: &str, c4: &str) -> (r: String)
    ensures
        r@ == overview_columns(c0@, c1@, c2@, c3@, c4@),
{
    proof {
        reveal_strlit(" ");
    }
    let mut out = String::from_str(" ");
    let a = pad_end_text(c0, 16);
    out.append(a.as_str());
    out.append(" ");
    let b = pad_start_text(c1, 10);
    out.append(b.as_str());
    out.append(" ");
    let c = pad_start_text(c2, 10);
    out.append(c.as_str());
    out.append(" ");
    let d = pad_start_text(c3, 10);
    out.append(d.as_str());
    out.append(" ");
    let e = pad_start_text(c4, 10);
    out.append(e.as_str());
    proof {
        assert(out@ =~= overview_columns(c0@, c1@, c2@, c3@, c4@));
    }
    out
}

/// The overview's column titles.
pub open spec fn market_header() -> Seq<char> {
    overview_columns("RESOURCE"@, "PRICE"@, "EMA"@, "SUPPLY"@, "DEMAND"@)
}

/// A market's line of the overview.
pub open spec fn market_line(r: MarketRow) -> Seq<char> {
    overview_columns(
        r.slug@,
        shown_decimal(r.price@),
        shown_decimal(r.ema@),
        shown_decimal(r.supply@),
        shown_decimal(r.demand@),
    )
}

/// Each decimal of `r` is cut cleanly for the overview.
pub open spec fn shown_cleanly(r: MarketRow) -> bool {
    &&& cut_is_clean(r.price@)
    &&& cut_is_clean(r.ema@)
    &&& cut_is_clean(r.supply@)
    &&& cut_is_clean(r.demand@)
}

/// The market overview of `rows`.
pub open spec fn market_lines(rows: Seq<MarketRow>) -> Seq<Seq<char>> {
    if rows.len() == 0 {
        seq!["No market data available."@]
    } else {
        seq!["------------- MARKET OVERVIEW -------------"@, market_header()] + rows.map_values(
            |r: MarketRow| market_line(r),
        )
    }
}

/// The texts of `lines`.
pub open spec fn line_texts(lines: Seq<String>) -> Seq<Seq<char>> {
    lines.map_values(|l: String| l@)
}

/// The market overview of `rows`, line by line.
pub fn market_report(rows: &Vec<MarketRow>) -> (r: Vec<String>)
    requires
        forall|k: int| 0 <= k < rows@.len() ==> shown_cleanly(#[trigger] rows@[k]),
    ensures
        line_texts(r@) == market_lines(rows@),
{
    let mut out: Vec<String> = Vec::new();
    if rows.len() == 0 {
        out.push("No market data available.".to_owned());
        proof {
            assert(line_texts(out@) =~= market_lines(rows@));
        }
        return out;
    }
    out.push("------------- MARKET OVERVIEW -------------".to_owned());
    out.push(overview_line("RESOURCE", "PRICE", "EMA", "SUPPLY", "DEMAND"));
    let mut i: usize = 0;
    while i < rows.len()
        invariant
            forall|k: int| 0 <= k < rows@.len() ==> shown_cleanly(#[trigger] rows@[k]),
            i <= rows@.len(),
            out@.len() == 2 + i,
            out@[0]@ == "------------- MARKET OVERVIEW -------------"@,
            out@[1]@ == market_header(),
            forall|k: int| 0 <= k < i ==> (#[trigger] out@[2 + k])@ == market_line(rows@[k]),
        decreases rows@.len() - i,
    {
        let row = &rows[i];
        assert(shown_cleanly(rows@[i as int]));
        let p = shown(row.price.as_str());
        let e = shown(row.ema.as_str());
        let s = shown(row.supply.as_str());
        let d = shown(row.demand.as_str());
        out.push(overview_line(row.slug.as_str(), p.as_str(), e.as_str(), s.as_str(), d.as_str()));
        i = i + 1;
    }
    proof {
        let want = market_lines(rows@);
        assert forall|j: int| 0 <= j < want.len() implies line_texts(out@)[j] == want[j] by {
            if j >= 2 {
                assert(out@[2 + (j - 2)]@ == market_line(rows@[j - 2]));
            }
        }
        assert(line_texts(out@) =~= want);
    }
    out
}

/// The status block of the selected company.
pub open spec fn status_lines(c: CompanyInfo) -> Seq<Seq<char>> {
    seq![
        "------------- COMPANY STATUS -------------"@,
        " Name:      "@ + c.name@,
        " Treasury:  "@ + c.treasury@ + " credits"@,
        " Workers:   "@ + c.workers@ + " / "@ + c.capacity@,
        " Factories: "@ + c.factories@,
        " Tech:      Level "@ + c.tech_level@,
    ]
}

/// `a` followed by `b`.
fn joined2(a: &str, b: &str) -> (r: String)
    ensures
        r@ == a@ + b@,
{
    let mut out = a.to_owned();
    out.append(b);
    out
}

/// The status block of `c`, line by line.
pub fn status_report(c: &CompanyInfo) -> (r: Vec<String>)
    ensures
        line_texts(r@) == status_lines(*c),
{
    let mut out: Vec<String> = Vec::new();
    out.push("------------- COMPANY STATUS -------------".to_owned());
    out.push(joined2(" Name:      ", c.name.as_str()));
    let mut t = joined2(" Treasury:  ", c.treasury.as_str());
    t.append(" credits");
    out.push(t);
    let mut w = joined2(" Workers:   ", c.workers.as_str());
    w.append(" / ");
    w.append(c.capacity.as_str());
    out.push(w);
    out.push(joined2(" Factories: ", c.factories.as_str()));
    out.push(joined2(" Tech:      Level ", c.tech_level.as_str()));
    proof {
        assert(line_texts(out@) =~= status_lines(*c));
    }
    out
}

/// An inventory as logged: a title and a line per item, or a note that it
/// is empty.
pub open spec fn inventory_lines(items: Seq<InventoryItem>) -> Seq<Seq<char>> {
    if items.len() == 0 {
        seq!["Inventory is empty."@]
    } else {
        seq!["------------- INVENTORY -------------"@] + items.map_values(
            |i: InventoryItem| "  "@ + i.resource@ + ": "@ + i.quantity@,
        )
    }
}

/// The inventory `items`, line by line.
pub fn inventory_report(items: &Vec<InventoryItem>) -> (r: Vec<String>)
    ensures
        line_texts(r@) == inventory_lines(items@),
{
    let mut out: Vec<String> = Vec::new();
    if items.len() == 0 {
        out.push("Inventory is empty.".to_owned());
        proof {
            assert(line_texts(out@) =~= inventory_lines(items@));
        }
        return out;
    }
    out.push("------------- INVENTORY -------------".to_owned());
    let mut i: usize = 0;
    while i < items.len()
        invariant
            i <= items@.len(),
            out@.len() == 1 + i,
            out@[0]@ == "------------- INVENTORY -------------"@,
            forall|k: int|
                0 <= k < i ==> (#[trigger] out@[1 + k])@ == "  "@ + items@[k].resource@ + ": "@
                    + items@[k].quantity@,
        decreases items@.len() - i,
    {
        let mut line = joined2("  ", items[i].resource.as_str());
        line.append(": ");
        line.append(items[i].quantity.as_str());
        out.push(line);
        i = i + 1;
    }
    proof {
        let want = inventory_lines(items@);
        assert forall|j: int| 0 <= j < want.len() implies line_texts(out@)[j] == want[j] by {
            if j >= 1 {
                assert(out@[1 + (j - 1)]@ == "  "@ + items@[j - 1].resource@ + ": "@
                    + items@[j - 1].quantity@);
            }
        }
        assert(line_texts(out@) =~= want);
    }
    out
}

/// A company as the server lists it; a field the answer lacks is `None`.
#[derive(Debug, Clone)]
pub struct CompanyListing {
    pub id: Option<String>,
    pub name: Option<String>,
    pub treasury: Option<String>,
}

/// The text of `t`, or `default` where there is none.
pub open spec fn text_or(t: Option<String>, default: Seq<char>) -> Seq<char> {
    match t {
        Some(s) => s@,
        None => default,
    }
}

fn text_or_else<'a>(t: &'a Option<String>, default: &'a str) -> (r: &'a str)
    ensures
        r@ == text_or(*t, default@),
{
    match t {
        Some(s) => s.as_str(),
        None => default,
    }
}

/// A listed company's line.
pub open spec fn company_line(c: CompanyListing) -> Seq<char> {
    "  ["@ + text_or(c.id, "-"@) + "] "@ + text_or(c.name, "-"@) + " | Treasury: "@ + text_or(
        c.treasury,
        "0"@,
    )
}

/// The player's companies as logged: a title, a line each and a hint, or a
/// note that there are none.
pub open spec fn company_lines(cs: Seq<CompanyListing>) -> Seq<Seq<char>> {
    if cs.len() == 0 {
        seq!["No companies. Create one with: create company <name>"@]
    } else {
        seq!["------------- YOUR COMPANIES -------------"@] + cs.map_values(
            |c: CompanyListing| company_line(c),
        ) + seq!["Use 'select <company_id>' to manage a company."@]
    }
}

/// The companies `cs`, line by line.
pub fn company_report(cs: &Vec<CompanyListing>) -> (r: Vec<String>)
    ensures
        line_texts(r@) == company_lines(cs@),
{
    let mut out: Vec<String> = Vec::new();
    if cs.len() == 0 {
        out.push("No companies. Create one with: create company <name>".to_owned());
        proof {
            assert(line_texts(out@) =~= company_lines(cs@));
        }
        return out;
    }
    out.push("------------- YOUR COMPANIES -------------".to_owned());
    let mut i: usize = 0;
    while i < cs.len()
        invariant
            i <= cs@.len(),
            out@.len() == 1 + i,
            out@[0]@ == "------------- YOUR COMPANIES -------------"@,
            forall|k: int| 0 <= k < i ==> (#[trigger] out@[1 + k])@ == company_line(cs@[k]),
        decreases cs@.len() - i,
    {
        let c = &cs[i];
        let mut line = joined2("  [", text_or_else(&c.id, "-"));
        line.append("] ");
        line.append(text_or_else(&c.name, "-"));
        line.append(" | Treasury: ");
        line.append(text_or_else(&c.treasury, "0"));
        out.push(line);
        i = i + 1;
    }
    out.push("Use 'select <company_id>' to manage a company.".to_owned());
    proof {
        let want = company_lines(cs@);
        assert forall|j: int| 0 <= j < want.len() implies line_texts(out@)[j] == want[j] by {
            if 1 <= j < want.len() - 1 {
                assert(out@[1 + (j - 1)]@ == company_line(cs@[j - 1]));
            }
        }
        assert(line_texts(out@) =~= want);
    }
    out
}

/// An input or output of a listed recipe; a field the answer lacks is `None`.
#[derive(Debug, Clone)]
pub struct ItemListing {
    pub quantity: Option<String>,
    pub resource: Option<String>,
}

/// A recipe as the server lists it.  The three counts are the texts of the
/// whole numbers read, `0` where the answer lacks one; an absent list of
/// inputs or outputs is empty.
#[derive(Debug, Clone)]
pub struct RecipeListing {
    pub slug: Option<String>,
    pub name: Option<String>,
    pub ticks: String,
    pub tech: String,
    pub workers: String,
    pub inputs: Vec<ItemListing>,
    pub outputs: Vec<ItemListing>,
}

/// An item as `<quantity>x<resource>`.
pub open spec fn item_text(i: ItemListing) -> Seq<char> {
    text_or(i.quantity, "?"@) + "x"@ + text_or(i.resource, "?"@)
}

/// `parts` with `sep` between each two.
pub open spec fn joined(parts: Seq<Seq<char>>, sep: Seq<char>) -> Seq<char>
    decreases parts.len(),
{
    if parts.len() == 0 {
        Seq::empty()
    } else if parts.len() == 1 {
        parts[0]
    } else {
        joined(parts.drop_last(), sep) + sep + parts.last()
    }
}

/// The items of a list, joined by ` + `.
pub open spec fn items_text(items: Seq<ItemListing>) -> Seq<char> {
    joined(items.map_values(|i: ItemListing| item_text(i)), " + "@)
}

/// The first line of a listed recipe.
pub open spec fn recipe_head(r: RecipeListing) -> Seq<char> {
    " ["@ + text_or(r.slug, "-"@) + "] "@ + text_or(r.name, "-"@) + " | "@ + r.ticks@
        + " ticks | tech:"@ + r.tech@ + " | workers:"@ + r.workers@
}

/// The second line of a listed recipe: what goes in and what comes out.
pub open spec fn recipe_flow(r: RecipeListing) -> Seq<char> {
    "   "@ + items_text(r.inputs@) + " -> "@ + items_text(r.outputs@)
}

/// Two lines for each recipe of `rs`, in order.
pub open spec fn recipe_block(rs: Seq<RecipeListing>) -> Seq<Seq<char>>
    decreases rs.len(),
{
    if rs.len() == 0 {
        Seq::empty()
    } else {
        recipe_block(rs.drop_last()) + seq![recipe_head(rs.last()), recipe_flow(rs.last())]
    }
}

/// The recipe book as logged: a title, then two lines per recipe.
pub open spec fn recipe_lines(rs: Seq<RecipeListing>) -> Seq<Seq<char>> {
    seq!["------------- RECIPES -------------"@] + recipe_block(rs)
}

fn item_line(i: &ItemListing) -> (r: String)
    ensures
        r@ == item_text(*i),
{
    let mut out = text_or_else(&i.quantity, "?").to_owned();
    out.append("x");
    out.append(text_or_else(&i.resource, "?"));
    out
}

fn items_line(items: &Vec<ItemListing>) -> (r: String)
    ensures
        r@ == items_text(items@),
{
    let ghost f = |i: ItemListing| item_text(i);
    let mut out = String::new();
    let mut i: usize = 0;
    while i < items.len()
        invariant
            i <= items@.len(),
            f == (|i: ItemListing| item_text(i)),
            out@ == joined(items@.take(i as int).map_values(f), " + "@),
        decreases items@.len() - i,
    {
        let t = item_line(&items[i]);
        proof {
            reveal_strlit(" + ");
            let next = items@.take(i as int + 1).map_values(f);
            assert(next.drop_last() =~= items@.take(i as int).map_values(f));
            assert(next.last() == item_text(items@[i as int]));
        }
        if i > 0 {
            out.append(" + ");
        }
        out.append(t.as_str());
        proof {
            let next = items@.take(i as int + 1).map_values(f);
            if i == 0 {
                assert(out@ =~= next[0]);
            } else {
                assert(out@ =~= joined(next.drop_last(), " + "@) + " + "@ + next.last());
            }
        }
        i = i + 1;
    }
    proof {
        assert(items@.take(items@.len() as int) =~= items@);
    }
    out
}

fn recipe_head_line(r: &RecipeListing) -> (t: String)
    ensures
        t@ == recipe_head(*r),
{
    let mut out = joined2(" [", text_or_else(&r.slug, "-"));
    out.append("] ");
    out.append(text_or_else(&r.name, "-"));
    out.append(" | ");
    out.append(r.ticks.as_str());
    out.append(" ticks | tech:");
    out.append(r.tech.as_str());
    out.append(" | workers:");
    out.append(r.workers.as_str());
    out
}

fn recipe_flow_line(r: &RecipeListing) -> (t: String)
    ensures
        t@ == recipe_flow(*r),
{
    let ins = items_line(&r.inputs);
    let outs = items_line(&r.outputs);
    let mut out = joined2("   ", ins.as_str());
    out.append(" -> ");
    out.append(outs.as_str());
    out
}

/// The recipe book `rs`, line by line.
pub fn recipe_report(rs: &Vec<RecipeListing>) -> (r: Vec<String>)
    ensures
        line_texts(r@) == recipe_lines(rs@),
{
    let mut out: Vec<String> = Vec::new();
    out.push("------------- RECIPES -------------".to_owned());
    let mut i: usize = 0;
    while i < rs.len()
        invariant
            i <= rs@.len(),
            line_texts(out@) == recipe_lines(rs@.take(i as int)),
        decreases rs@.len() - i,
    {
        let ghost before = out@;
        out.push(recipe_head_line(&rs[i]));
        out.push(recipe_flow_line(&rs[i]));
        proof {
            let next = rs@.take(i as int + 1);
            assert(next.drop_last() =~= rs@.take(i as int));
            assert(next.last() == rs@[i as int]);
            assert(line_texts(out@) =~= line_texts(before) + seq![
                recipe_head(rs@[i as int]),
                recipe_flow(rs@[i as int]),
            ]);
            assert(line_texts(out@) =~= recipe_lines(next));
        }
        i = i + 1;
    }
    proof {
        assert(rs@.take(rs@.len() as int) =~= rs@);
    }
    out
}

/// The company that a listing selects when none is selected: the first,
/// where its identifier reads as one.
pub open spec fn auto_selection(active: Option<u128>, cs: Seq<CompanyListing>) -> Option<u128> {
    if active is None && cs.len() > 0 {
        match cs[0].id {
            Some(id) => uuid_text(id@),
            None => None,
        }
    } else {
        None
    }
}

impl App {
    /// Logs the market overview of `rows`; when there are any, they become
    /// the market panel's rows.
    pub fn show_markets(&mut self, rows: Vec<MarketRow>)
        requires
            forall|k: int| 0 <= k < rows@.len() ==> shown_cleanly(#[trigger] rows@[k]),
        ensures
            logged(*old(self), *final(self), market_lines(rows@)),
            *final(self) == (App {
                log_messages: final(self).log_messages,
                log_scroll: final(self).log_scroll,
                markets: if rows@.len() == 0 {
                    old(self).markets
                } else {
                    rows
                },
                ..*old(self)
            }),
    {
        let lines = market_report(&rows);
        self.log_texts(&lines);
        if rows.len() > 0 {
            self.markets = rows;
        }
    }
    /// Logs the selected company's status block, when its summary is loaded.
    pub fn show_company_status(&mut self)
        ensures
            match old(self).active_company {
                Some(c) => logged(*old(self), *final(self), status_lines(c)),
                None => final(self).log_messages == old(self).log_messages
                    && final(self).log_scroll == old(self).log_scroll,
            },
            *final(self) == (App {
                log_messages: final(self).log_messages,
                log_scroll: final(self).log_scroll,
                ..*old(self)
            }),
    {
        let lines = match &self.active_company {
            Some(c) => Some(status_report(c)),
            None => None,
        };
        match lines {
            Some(l) => self.log_texts(&l),
            None => {},
        }
    }

    /// Logs the inventory `items`.
    pub fn show_inventory(&mut self, items: &Vec<InventoryItem>)
        ensures
            logged(*old(self), *final(self), inventory_lines(items@)),
            *final(self) == (App {
                log_messages: final(self).log_messages,
                log_scroll: final(self).log_scroll,
                ..*old(self)
            }),
    {
        let lines = inventory_report(items);
        self.log_texts(&lines);
    }

    /// Logs the player's companies `cs`.  When none is selected, the first
    /// one whose identifier reads as one is selected and that is logged as
    /// a success; the selection made, if any, is returned.
    pub fn show_companies(&mut self, cs: &Vec<CompanyListing>) -> (r: Option<u128>)
        ensures
            r == auto_selection(old(self).active_company_id, cs@),
            match r {
                None => logged(*old(self), *final(self), company_lines(cs@))
                    && final(self).active_company_id == old(self).active_company_id,
                Some(id) => logged(
                    *old(self),
                    *final(self),
                    company_lines(cs@).push(
                        report_text(true, "Auto-selected: "@ + text_or(cs@[0].name, "?"@)),
                    ),
                ) && final(self).active_company_id == Some(id),
            },
            *final(self) == (App {
                log_messages: final(self).log_messages,
                log_scroll: final(self).log_scroll,
                active_company_id: final(self).active_company_id,
                ..*old(self)
            }),
    {
        let mut lines = company_report(cs);
        let mut pick: Option<u128> = None;
        if cs.len() > 0 && self.active_company_id.is_none() {
            match &cs[0].id {
                Some(id) => {
                    pick = parse_uuid(id.as_str());
                },
                None => {},
            }
        }
        match pick {
            Some(id) => {
                let mut line = joined2("OK: Auto-selected: ", text_or_else(&cs[0].name, "?"));
                proof {
                    reveal_strlit("OK: Auto-selected: ");
                    reveal_strlit("Auto-selected: ");
                    assert(line@ =~= report_text(true, "Auto-selected: "@ + text_or(cs@[0].name, "?"@)));
                }
                lines.push(line);
                self.active_company_id = Some(id);
            },
            None => {},
        }
        self.log_texts(&lines);
        proof {
            if pick is Some {
                assert(line_texts(lines@) =~= company_lines(cs@).push(
                    report_text(true, "Auto-selected: "@ + text_or(cs@[0].name, "?"@)),
                ));
            }
        }
        pick
    }
    /// Logs the recipe book `rs`.
    pub fn show_recipes(&mut self, rs: &Vec<RecipeListing>)
        ensures
            logged(*old(self), *final(self), recipe_lines(rs@)),
            *final(self) == (App {
                log_messages: final(self).log_messages,
                log_scroll: final(self).log_scroll,
                ..*old(self)
            }),
    {
        let lines = recipe_report(rs);
        self.log_texts(&lines);
    }
}

/// Padding fills a text to the width with spaces and never cuts it:
/// left-aligned the text comes first, right-aligned it comes last, and the
/// result is as long as the width or the text, whichever is longer.
pub proof fn law_padding_keeps_the_text_and_fills_with_spaces(s: Seq<char>, width: nat)
    ensures
        pad_end(s, width).len() == if s.len() >= width { s.len() } else { width },
        pad_start(s, width).len() == if s.len() >= width { s.len() } else { width },
        pad_end(s, width).subrange(0, s.len() as int) == s,
        pad_start(s, width).subrange(pad_start(s, width).len() - s.len(), pad_start(s, width).len() as int) == s,
        forall|i: int| s.len() <= i < pad_end(s, width).len() ==> #[trigger] pad_end(s, width)[i] == ' ',
        forall|i: int|
            0 <= i < pad_start(s, width).len() - s.len() ==> #[trigger] pad_start(s, width)[i] == ' ',
{
    assert(pad_end(s, width).subrange(0, s.len() as int) =~= s);
    assert(pad_start(s, width).subrange(pad_start(s, width).len() - s.len(), pad_start(s, width).len() as int) =~= s);
}

} // verus!
