use econwar::client::app::{App, CompanyInfo, InputMode, InventoryItem, Key, KeyOutcome, KeyPress, MarketRow, Panel};
use econwar::client::report::{
    company_report, inventory_report, market_report, recipe_report, status_report, CompanyListing,
    ItemListing, RecipeListing,
};
use econwar::client::commands::{
    parse_command, parse_i32, strip_leading_x, tokenize, trim, truncate_decimal, ClientCommand,
    UsageError,
};
use econwar::client::screen::{contains_text, line_style, log_window, LineStyle};

fn press(key: Key) -> KeyPress {
    KeyPress { key, ctrl: false }
}

fn typed(app: &mut App, text: &str) {
    for c in text.chars() {
        app.handle_key(press(Key::Char(c)));
    }
}

#[test]
fn panels_cycle_both_ways() {
    assert_eq!(Panel::Log.next(), Panel::Markets);
    assert_eq!(Panel::Markets.next(), Panel::Company);
    assert_eq!(Panel::Company.next(), Panel::Log);
    assert_eq!(Panel::Log.prev(), Panel::Company);
    assert_eq!(Panel::Markets.prev(), Panel::Log);
    assert_eq!(Panel::Company.prev(), Panel::Markets);
    for p in [Panel::Log, Panel::Markets, Panel::Company] {
        assert_eq!(p.next().prev(), p);
        assert_eq!(p.next().next().next(), p);
    }
}

#[test]
fn tokenize_splits_on_spaces_outside_quotes() {
    assert_eq!(tokenize("buy 100 copper 40"), vec!["buy", "100", "copper", "40"]);
    assert_eq!(tokenize("  create   company  \"Big Co\" "), vec!["create", "company", "Big Co"]);
    assert_eq!(tokenize("say 'it''s'"), vec!["say", "its"]);
    assert_eq!(tokenize("a\"b c\"d"), vec!["ab cd"]);
    assert!(tokenize("   ").is_empty());
    assert!(tokenize("\"\"").is_empty());
}

#[test]
fn truncate_keeps_two_decimals() {
    assert_eq!(truncate_decimal("123.45678"), "123.45");
    assert_eq!(truncate_decimal("123.4"), "123.4");
    assert_eq!(truncate_decimal("123."), "123.");
    assert_eq!(truncate_decimal("42"), "42");
    assert_eq!(truncate_decimal("1.2.3.4"), "1.2.");
}

#[test]
fn parse_i32_follows_rust() {
    assert_eq!(parse_i32("42"), Some(42));
    assert_eq!(parse_i32("+7"), Some(7));
    assert_eq!(parse_i32("-2147483648"), Some(i32::MIN));
    assert_eq!(parse_i32("2147483647"), Some(i32::MAX));
    assert_eq!(parse_i32("2147483648"), None);
    assert_eq!(parse_i32("99999999999999999999"), None);
    assert_eq!(parse_i32(""), None);
    assert_eq!(parse_i32("-"), None);
    assert_eq!(parse_i32("4x"), None);
    assert_eq!(parse_i32(" 4"), None);
    for s in ["0", "-0", "+12", "007", "12a", "--1", "2147483648", "-2147483649"] {
        assert_eq!(parse_i32(s), s.parse::<i32>().ok(), "{s}");
    }
}

#[test]
fn trim_and_strip() {
    assert_eq!(trim("\t hello world \n"), "hello world");
    assert_eq!(trim("\u{3000}x\u{a0}"), "x");
    assert_eq!(trim("   "), "");
    assert_eq!(strip_leading_x("xx5"), "5");
    assert_eq!(strip_leading_x("5x"), "5x");
}

#[test]
fn commands_are_read_case_insensitively() {
    match parse_command("  BUY 100 Copper @ 40 ") {
        ClientCommand::Buy { quantity, resource, price } => {
            assert_eq!((quantity.as_str(), resource.as_str(), price.as_str()), ("100", "Copper", "40"));
        }
        other => panic!("unexpected {:?}", other),
    }
    match parse_command("s 50 steel 120") {
        ClientCommand::Sell { price, .. } => assert_eq!(price, "120"),
        other => panic!("unexpected {:?}", other),
    }
    match parse_command("create Company Big Steel Co") {
        ClientCommand::CreateCompany { name } => assert_eq!(name, "Big Steel Co"),
        other => panic!("unexpected {:?}", other),
    }
    match parse_command("produce smelt_steel x5") {
        ClientCommand::Produce { recipe, batch } => {
            assert_eq!(recipe, "smelt_steel");
            assert_eq!(batch, 5);
        }
        other => panic!("unexpected {:?}", other),
    }
    match parse_command("p smelt_steel lots") {
        ClientCommand::Produce { batch, .. } => assert_eq!(batch, 1),
        other => panic!("unexpected {:?}", other),
    }
    match parse_command("hire 12") {
        ClientCommand::Hire { count } => assert_eq!(count, 12),
        other => panic!("unexpected {:?}", other),
    }
    match parse_command("Frobnicate now") {
        ClientCommand::Unknown { name } => assert_eq!(name, "frobnicate"),
        other => panic!("unexpected {:?}", other),
    }
    match parse_command("select 67e55044-10b1-426f-9247-bb680e5fe0c8") {
        ClientCommand::Select { company_id } => {
            assert_eq!(company_id, Some(0x67e5504410b1426f9247bb680e5fe0c8))
        }
        other => panic!("unexpected {:?}", other),
    }
    assert!(matches!(parse_command("use nope"), ClientCommand::Select { company_id: None }));
    assert!(matches!(parse_command("   "), ClientCommand::Nothing));
    assert!(matches!(parse_command("\"\""), ClientCommand::Nothing));
    assert!(matches!(parse_command("HELP"), ClientCommand::Help));
    assert!(matches!(parse_command("?"), ClientCommand::Help));
    assert!(matches!(parse_command("inv"), ClientCommand::Inventory));
    assert!(matches!(parse_command("scan"), ClientCommand::Markets));
    assert!(matches!(parse_command("exit"), ClientCommand::QuitHint));
    assert!(matches!(parse_command("cls"), ClientCommand::Clear));
    assert!(matches!(parse_command("build FACTORY"), ClientCommand::BuildFactory));
}

#[test]
fn malformed_commands_get_their_usage() {
    assert!(matches!(parse_command("register bob"), ClientCommand::Usage(UsageError::Register)));
    assert!(matches!(parse_command("login"), ClientCommand::Usage(UsageError::Login)));
    assert!(matches!(parse_command("create firm X"), ClientCommand::Usage(UsageError::Create)));
    assert!(matches!(parse_command("create company"), ClientCommand::Usage(UsageError::Create)));
    assert!(matches!(parse_command("fund"), ClientCommand::Usage(UsageError::Fund)));
    assert!(matches!(parse_command("hire"), ClientCommand::Usage(UsageError::Hire)));
    assert!(matches!(parse_command("hire ten"), ClientCommand::InvalidNumber));
    assert!(matches!(parse_command("build house"), ClientCommand::Usage(UsageError::Build)));
    assert!(matches!(parse_command("select"), ClientCommand::Usage(UsageError::Select)));
    assert!(matches!(parse_command("buy 1 copper"), ClientCommand::Usage(UsageError::Buy)));
    assert!(matches!(parse_command("sell 1"), ClientCommand::Usage(UsageError::Sell)));
    assert!(matches!(parse_command("produce"), ClientCommand::Usage(UsageError::Produce)));
}

#[test]
fn new_app_starts_in_command_mode() {
    let app = App::new("http://localhost:8080".to_string());
    assert_eq!(app.input_mode, InputMode::Command);
    assert_eq!(app.active_panel, Panel::Log);
    assert!(app.log_messages.is_empty());
    assert_eq!(app.history_index, 0);
}

#[test]
fn logging_stamps_lines_and_follows_the_bottom() {
    let mut app = App::new(String::new());
    app.log_at("12:00:00", "hello");
    assert_eq!(app.log_messages[0], "[12:00:00] hello");
    assert_eq!(app.log_scroll, 0);
    for i in 0..10 {
        app.log_at("12:00:01", &format!("line {i}"));
    }
    assert_eq!(app.log_scroll, 10);
    app.scroll_up_page();
    assert_eq!(app.log_scroll, 0);
    app.log_at("12:00:02", "more");
    // Scrolled away from the bottom: the view stays.
    assert_eq!(app.log_scroll, 0);
    app.log_success("done");
    assert!(app.log_messages.last().unwrap().ends_with("] OK: done"));
    app.log_error("bad");
    assert!(app.log_messages.last().unwrap().ends_with("] ERR: bad"));
    app.report(false, "nope");
    assert!(app.log_messages.last().unwrap().ends_with("] ERR: nope"));
    assert_eq!(app.log_messages.len(), 15);
}

#[test]
fn scrolling_stays_within_the_log() {
    let mut app = App::new(String::new());
    app.scroll_up();
    assert_eq!(app.log_scroll, 0);
    app.scroll_down();
    assert_eq!(app.log_scroll, 0);
    for _ in 0..25 {
        app.log_at("t", "x");
    }
    app.log_scroll = 0;
    app.scroll_down_page();
    assert_eq!(app.log_scroll, 10);
    app.scroll_down_page();
    app.scroll_down_page();
    assert_eq!(app.log_scroll, 24);
    app.scroll_down();
    assert_eq!(app.log_scroll, 24);
    app.scroll_to_bottom();
    assert_eq!(app.log_scroll, 24);
    assert!(app.is_at_bottom());
    app.log_scroll = 20;
    assert!(!app.is_at_bottom());
}

#[test]
fn keys_edit_run_and_recall_commands() {
    let mut app = App::new(String::new());
    typed(&mut app, "helpx");
    app.handle_key(press(Key::Backspace));
    match app.handle_key(press(Key::Enter)) {
        KeyOutcome::Execute(line) => assert_eq!(line, "help"),
        other => panic!("unexpected {:?}", other),
    }
    assert!(app.input.is_empty());
    assert_eq!(app.command_history, vec!["help".to_string()]);
    assert_eq!(app.history_index, 1);
    assert!(matches!(app.handle_key(press(Key::Enter)), KeyOutcome::Continue));
    typed(&mut app, "m");
    app.handle_key(press(Key::Enter));
    app.handle_key(press(Key::Up));
    assert_eq!(app.input, vec!['m']);
    app.handle_key(press(Key::Up));
    assert_eq!(app.input.iter().collect::<String>(), "help");
    app.handle_key(press(Key::Up));
    assert_eq!(app.history_index, 0);
    app.handle_key(press(Key::Down));
    assert_eq!(app.input, vec!['m']);
    app.handle_key(press(Key::Down));
    assert!(app.input.is_empty());
    assert_eq!(app.history_index, 2);
    typed(&mut app, "abc");
    app.handle_key(press(Key::Esc));
    assert!(app.input.is_empty());
    assert_eq!(app.input_mode, InputMode::Normal);
}

#[test]
fn keys_in_normal_mode() {
    let mut app = App::new(String::new());
    app.handle_key(press(Key::Esc));
    app.handle_key(press(Key::Tab));
    assert_eq!(app.active_panel, Panel::Markets);
    app.handle_key(press(Key::BackTab));
    app.handle_key(press(Key::BackTab));
    assert_eq!(app.active_panel, Panel::Company);
    match app.handle_key(press(Key::Char('?'))) {
        KeyOutcome::Execute(line) => assert_eq!(line, "help"),
        other => panic!("unexpected {:?}", other),
    }
    assert!(matches!(app.handle_key(press(Key::Char('q'))), KeyOutcome::Quit));
    app.handle_key(press(Key::Char(':')));
    assert_eq!(app.input_mode, InputMode::Command);
    assert!(matches!(app.handle_key(KeyPress { key: Key::Char('c'), ctrl: true }), KeyOutcome::Quit));
    // Ctrl with another letter types it.
    app.handle_key(KeyPress { key: Key::Char('a'), ctrl: true });
    assert_eq!(app.input, vec!['a']);
}

#[test]
fn refresh_every_twentieth_round_when_logged_in() {
    let mut app = App::new(String::new());
    for _ in 0..19 {
        assert!(!app.refresh_due());
    }
    assert!(!app.refresh_due());
    app.token = Some("t".to_string());
    for _ in 0..19 {
        assert!(!app.refresh_due());
    }
    assert!(app.refresh_due());
    assert_eq!(app.tick_counter, 40);
}

#[test]
fn company_commands_need_login_and_selection() {
    let mut app = App::new(String::new());
    assert_eq!(app.require_company(), None);
    assert!(app.log_messages[0].ends_with("ERR: Login first."));
    app.player_id = Some(1);
    assert_eq!(app.require_company(), None);
    app.active_company_id = Some(2);
    assert_eq!(app.require_company(), Some((1, 2)));
    assert_eq!(app.log_messages.len(), 2);
    app.logout();
    assert_eq!(app.player_id, None);
    assert_eq!(app.active_company_id, None);
    app.clear_log();
    assert!(app.log_messages.is_empty());
}

#[test]
fn log_window_ends_at_the_scrolled_line() {
    assert_eq!(log_window(100, 10, 99), (90, 100));
    assert_eq!(log_window(100, 10, 50), (41, 51));
    assert_eq!(log_window(100, 10, 0), (0, 10));
    assert_eq!(log_window(100, 10, 500), (90, 100));
    assert_eq!(log_window(5, 10, 3), (0, 5));
    assert_eq!(log_window(0, 10, 0), (0, 0));
}

#[test]
fn lines_are_styled_by_their_markers() {
    assert_eq!(line_style("[t] OK: fine"), LineStyle::Success);
    assert_eq!(line_style("[t] ERR: bad"), LineStyle::Error);
    assert_eq!(line_style("----- X -----"), LineStyle::Heading);
    assert_eq!(line_style("==="), LineStyle::Heading);
    assert_eq!(line_style("plain"), LineStyle::Plain);
    assert!(contains_text("abcabd", "abd"));
    assert!(!contains_text("ab", "abc"));
    assert!(contains_text("x", ""));
}

#[test]
fn help_logs_the_command_reference() {
    let mut app = App::new("http://localhost:8080".to_string());
    app.log("before");
    app.cmd_help();
    assert_eq!(app.log_messages.len(), 45);
    assert!(app.log_messages[0].ends_with("] before"));
    assert!(app.log_messages[2].ends_with("]                   ECONWAR COMMANDS                  "));
    assert!(app.log_messages[4].ends_with("] "));
    assert!(app.log_messages[25].ends_with("]     Example: sell 50 steel @ 120"));
    assert!(app.log_messages[43].ends_with("]   Ctrl+C or q               Quit"));
    assert!(app.log_messages[44].ends_with("] ==================================================="));
}

#[test]
fn usage_errors_log_how_the_command_is_written() {
    let mut app = App::new("http://localhost:8080".to_string());
    app.show_usage(UsageError::Fund);
    assert_eq!(app.log_messages.len(), 1);
    assert!(app.log_messages[0].ends_with("] ERR: Usage: fund <amount>"));
    app.show_usage(UsageError::Sell);
    assert_eq!(app.log_messages.len(), 3);
    assert!(app.log_messages[1].ends_with("] ERR: Usage: sell <qty> <resource> <price>"));
    assert!(app.log_messages[2].ends_with("] ERR:   Example: sell 50 steel 120"));
}

fn row(slug: &str, price: &str, ema: &str, supply: &str, demand: &str) -> MarketRow {
    MarketRow {
        slug: slug.to_string(),
        name: slug.to_string(),
        price: price.to_string(),
        ema: ema.to_string(),
        supply: supply.to_string(),
        demand: demand.to_string(),
    }
}

#[test]
fn market_overview_pads_columns_and_cuts_decimals() {
    assert_eq!(market_report(&vec![]), vec!["No market data available.".to_string()]);
    let lines = market_report(&vec![row("iron_ore", "12.3456", "12", "100.5", "7.999")]);
    assert_eq!(lines.len(), 3);
    assert_eq!(lines[0], "------------- MARKET OVERVIEW -------------");
    assert_eq!(
        lines[1],
        format!(" {:<16} {:>10} {:>10} {:>10} {:>10}", "RESOURCE", "PRICE", "EMA", "SUPPLY", "DEMAND")
    );
    assert_eq!(lines[1], " RESOURCE              PRICE        EMA     SUPPLY     DEMAND");
    assert_eq!(lines[2], " iron_ore              12.34         12      100.5       7.99");
    let long = market_report(&vec![row("a_very_long_resource_name", "1", "2", "3", "12345678901.5")]);
    assert_eq!(long[2], " a_very_long_resource_name          1          2          3 12345678901.5");
}

#[test]
fn showing_markets_keeps_the_rows_only_when_there_are_some() {
    let mut app = App::new("http://x".to_string());
    app.show_markets(vec![]);
    assert!(app.markets.is_empty());
    assert!(app.log_messages[0].ends_with("] No market data available."));
    app.show_markets(vec![row("coal", "3.5", "3.5", "10", "0")]);
    assert_eq!(app.markets.len(), 1);
    assert_eq!(app.log_messages.len(), 4);
}

#[test]
fn company_status_block_lists_the_summary() {
    let c = CompanyInfo {
        id: "c1".to_string(),
        name: "Acme".to_string(),
        treasury: "1500.00".to_string(),
        workers: "4".to_string(),
        capacity: "10".to_string(),
        factories: "1".to_string(),
        tech_level: "2".to_string(),
    };
    let lines = status_report(&c);
    assert_eq!(
        lines,
        vec![
            "------------- COMPANY STATUS -------------",
            " Name:      Acme",
            " Treasury:  1500.00 credits",
            " Workers:   4 / 10",
            " Factories: 1",
            " Tech:      Level 2",
        ]
    );
    let mut app = App::new("http://x".to_string());
    app.show_company_status();
    assert!(app.log_messages.is_empty());
    app.active_company = Some(c);
    app.show_company_status();
    assert_eq!(app.log_messages.len(), 6);
    assert!(app.log_messages[3].ends_with("]  Workers:   4 / 10"));
}

#[test]
fn inventory_lines_name_each_item() {
    assert_eq!(inventory_report(&vec![]), vec!["Inventory is empty.".to_string()]);
    let items = vec![
        InventoryItem { resource: "r1".to_string(), quantity: "5".to_string() },
        InventoryItem { resource: "r2".to_string(), quantity: "0.5".to_string() },
    ];
    assert_eq!(
        inventory_report(&items),
        vec!["------------- INVENTORY -------------", "  r1: 5", "  r2: 0.5"]
    );
}

#[test]
fn company_list_selects_the_first_when_none_is_selected() {
    assert_eq!(
        company_report(&vec![]),
        vec!["No companies. Create one with: create company <name>".to_string()]
    );
    let id = "67e55044-10b1-426f-9247-bb680e5fe0c8";
    let cs = vec![
        CompanyListing { id: Some(id.to_string()), name: Some("Acme".to_string()), treasury: Some("10".to_string()) },
        CompanyListing { id: None, name: None, treasury: None },
    ];
    assert_eq!(
        company_report(&cs),
        vec![
            "------------- YOUR COMPANIES -------------".to_string(),
            format!("  [{id}] Acme | Treasury: 10"),
            "  [-] - | Treasury: 0".to_string(),
            "Use 'select <company_id>' to manage a company.".to_string(),
        ]
    );
    let mut app = App::new("http://x".to_string());
    let picked = app.show_companies(&cs);
    assert_eq!(picked, Some(0x67e5504410b1426f9247bb680e5fe0c8));
    assert_eq!(app.active_company_id, picked);
    assert_eq!(app.log_messages.len(), 5);
    assert!(app.log_messages[4].ends_with("] OK: Auto-selected: Acme"));
    let again = app.show_companies(&cs);
    assert_eq!(again, None);
    assert_eq!(app.log_messages.len(), 9);
    let mut fresh = App::new("http://x".to_string());
    let bad = vec![CompanyListing { id: Some("nope".to_string()), name: None, treasury: None }];
    assert_eq!(fresh.show_companies(&bad), None);
    assert_eq!(fresh.active_company_id, None);
}

#[test]
fn recipes_are_listed_in_two_lines_each() {
    let smelt = RecipeListing {
        slug: Some("smelt_steel".to_string()),
        name: Some("Smelt Steel".to_string()),
        ticks: "3".to_string(),
        tech: "1".to_string(),
        workers: "2".to_string(),
        inputs: vec![
            ItemListing { quantity: Some("2".to_string()), resource: Some("iron_ore".to_string()) },
            ItemListing { quantity: Some("1".to_string()), resource: None },
        ],
        outputs: vec![ItemListing { quantity: Some("1".to_string()), resource: Some("steel".to_string()) }],
    };
    let bare = RecipeListing {
        slug: None,
        name: None,
        ticks: "0".to_string(),
        tech: "0".to_string(),
        workers: "0".to_string(),
        inputs: vec![],
        outputs: vec![],
    };
    assert_eq!(
        recipe_report(&vec![smelt, bare]),
        vec![
            "------------- RECIPES -------------",
            " [smelt_steel] Smelt Steel | 3 ticks | tech:1 | workers:2",
            "   2xiron_ore + 1x? -> 1xsteel",
            " [-] - | 0 ticks | tech:0 | workers:0",
            "    -> ",
        ]
    );
}

#[test]
fn spaced_words_split_back() {
    let words = vec!["buy", "100", "copper", "40"];
    assert_eq!(tokenize(&words.join(" ")), words);
    assert_eq!(tokenize(""), Vec::<String>::new());
}

#[test]
fn unquoted_lines_split_like_split_on_spaces_without_empty_words() {
    let line = " sell  iron 12  at 40 ";
    let expected: Vec<String> = line.split(' ').filter(|w| !w.is_empty()).map(|w| w.to_string()).collect();
    assert_eq!(tokenize(line), expected);
}
