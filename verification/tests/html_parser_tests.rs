use rrdc::date::CalendarDate;
use rrdc::html_parser::HtmlParser;

#[test]
fn test_parse_japanese_date() {
    let parser = HtmlParser::new();

    let date = parser.parse_japanese_date("2024年12月25日(水)");
    assert_eq!(date, Some(CalendarDate::from_ymd_opt(2024, 12, 25).unwrap()));

    let date = parser.parse_japanese_date("2024年1月1日(月)");
    assert_eq!(date, Some(CalendarDate::from_ymd_opt(2024, 1, 1).unwrap()));

    let date = parser.parse_japanese_date("未定");
    assert_eq!(date, None);
}

#[test]
fn test_parse_japanese_date_rejects_noise() {
    let parser = HtmlParser::new();
    assert_eq!(parser.parse_japanese_date("  未定  "), None);
    assert_eq!(parser.parse_japanese_date("coming soon"), None);
    assert_eq!(parser.parse_japanese_date("2024年13月1日"), None);
    assert_eq!(parser.parse_japanese_date("2023年2月29日"), None);
    assert_eq!(parser.parse_japanese_date(""), None);
    assert_eq!(parser.parse_japanese_date("2024年12月25日(水) extra"), None);
    assert_eq!(
        parser.parse_japanese_date("  2024年2月29日(木)  "),
        Some(CalendarDate::from_ymd_opt(2024, 2, 29).unwrap())
    );
}

#[test]
fn test_parse_static_elements() {
    let html = r#"
        <html>
        <body>
            <div class="information">
                <span class="date">2024年12月25日(水)</span>
                <span class="subject">Test Product</span>
                <span class="theme">Theme Name</span>
            </div>
        </body>
        </html>
    "#;

    let parser = HtmlParser::new();
    let results = parser.parse(html).unwrap();

    assert_eq!(results.len(), 1);
    assert_eq!(results[0].title, "Test Product Theme Name");
    assert_eq!(results[0].date, Some(CalendarDate::from_ymd_opt(2024, 12, 25).unwrap()));
}

#[test]
fn test_parse_without_theme() {
    let html = r#"
        <html>
        <body>
            <div class="information">
                <span class="date">2024年12月25日(水)</span>
                <span class="subject">Test Product Only</span>
            </div>
        </body>
        </html>
    "#;

    let parser = HtmlParser::new();
    let results = parser.parse(html).unwrap();

    assert_eq!(results.len(), 1);
    assert_eq!(results[0].title, "Test Product Only");
}

#[test]
fn test_parse_undetermined_date() {
    let html = r#"
        <html>
        <body>
            <div class="information">
                <span class="date">未定</span>
                <span class="subject">Future Product</span>
            </div>
        </body>
        </html>
    "#;

    let parser = HtmlParser::new();
    let results = parser.parse(html).unwrap();

    assert_eq!(results.len(), 1);
    assert_eq!(results[0].title, "Future Product");
    assert!(results[0].is_undetermined());
}

#[test]
fn test_parse_skips_block_without_subject() {
    let html = r#"
        <html>
        <body>
            <div class="information">
                <span class="date">2024年12月25日(水)</span>
                <span class="theme">Theme Without Subject</span>
            </div>
        </body>
        </html>
    "#;

    let parser = HtmlParser::new();
    let results = parser.parse(html).unwrap();

    assert_eq!(results.len(), 0);
}

#[test]
fn test_parse_script_entries() {
    let html = r#"
        <html>
        <body>
            <script>
                var p = [];
                p[0]={'title':'Embedded Product','release-date':'2024年1月2日(火)'};
                p[1]={'title':'Open Ended'};
                p[2]={'release-date':'2024年3月4日(月)'};
            </script>
        </body>
        </html>
    "#;

    let parser = HtmlParser::new();
    let results = parser.parse(html).unwrap();

    assert_eq!(results.len(), 2);
    assert_eq!(results[0].title, "Embedded Product");
    assert_eq!(results[0].date, Some(CalendarDate::from_ymd_opt(2024, 1, 2).unwrap()));
    assert_eq!(results[1].title, "Open Ended");
    assert!(results[1].is_undetermined());
}

#[test]
fn test_parse_script_without_marker_is_ignored() {
    let html = r#"
        <html>
        <body>
            <script>
                var q = [];
                p[0]={'title':'Should Not Appear','release-date':'2024年1月2日(火)'};
            </script>
        </body>
        </html>
    "#;

    let parser = HtmlParser::new();
    let results = parser.parse(html).unwrap();

    assert_eq!(results.len(), 0);
}

#[test]
fn test_parse_script_nested_braces_truncate() {
    let html = r#"
        <html>
        <body>
            <script>
                var p = [];
                p[0]={'title':'Nested','extra':{'a':1}};
                p[1]={'title':'Flat Entry'};
            </script>
        </body>
        </html>
    "#;

    let parser = HtmlParser::new();
    let results = parser.parse(html).unwrap();

    assert_eq!(results.len(), 1);
    assert_eq!(results[0].title, "Flat Entry");
}

#[test]
fn test_parse_output_ordering() {
    let html = r#"
        <html>
        <body>
            <div class="information">
                <span class="date">2024年12月25日(水)</span>
                <span class="subject">Structural One</span>
            </div>
            <script>
                var p = [];
                p[0]={'title':'Embedded One','release-date':'2024年1月2日(火)'};
            </script>
            <div class="information">
                <span class="date">未定</span>
                <span class="subject">Structural Two</span>
            </div>
        </body>
        </html>
    "#;

    let parser = HtmlParser::new();
    let results = parser.parse(html).unwrap();

    assert_eq!(results.len(), 3);
    assert_eq!(results[0].title, "Structural One");
    assert_eq!(results[1].title, "Structural Two");
    assert_eq!(results[2].title, "Embedded One");
}

#[test]
fn test_parse_empty_document() {
    let parser = HtmlParser::new();
    let results = parser.parse("").unwrap();
    assert_eq!(results.len(), 0);
}

#[test]
fn test_parse_blank_subject_skipped() {
    let html = r#"
        <html>
        <body>
            <div class="information">
                <span class="date">2024年12月25日(水)</span>
                <span class="subject">   </span>
                <span class="theme">Theme Beside Blank Subject</span>
            </div>
            <div class="information">
                <span class="subject">Kept Product</span>
            </div>
        </body>
        </html>
    "#;

    let parser = HtmlParser::new();
    let results = parser.parse(html).unwrap();

    assert_eq!(results.len(), 1);
    assert_eq!(results[0].title, "Kept Product");
}

#[test]
fn test_parse_script_blank_title_skipped() {
    let html = r#"
        <html>
        <body>
            <script>
                var p = [];
                p[0]={'title':'','release-date':'2024年1月2日(火)'};
                p[1]={'title':'   '};
                p[2]={'title':'Real Entry'};
            </script>
        </body>
        </html>
    "#;

    let parser = HtmlParser::new();
    let results = parser.parse(html).unwrap();

    assert_eq!(results.len(), 1);
    assert_eq!(results[0].title, "Real Entry");
}
