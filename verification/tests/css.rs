use unique::css::scanner::{is_scanned_extension, scan_content};
use unique::css::{compile_classes, compile_scanned};
use unique::css::emitter::{emit_css, utility_to_css};
use unique::css::parser::{parse_class, parse_class_string, ResponsivePrefix, StatePrefix};

#[test]
fn emits_basic_layout() {
    let tokens = parse_class_string("flex items-center justify-center");
    let css = emit_css(&tokens);
    assert!(css.contains(".flex"));
    assert!(css.contains("display: flex"));
    assert!(css.contains(".items-center"));
    assert!(css.contains("align-items: center"));
}

#[test]
fn emits_spacing() {
    let tokens = parse_class_string("p-4 px-2 m-8");
    let css = emit_css(&tokens);
    assert!(css.contains(".p-4"));
    assert!(css.contains("padding: 1rem"));
    assert!(css.contains(".px-2"));
    assert!(css.contains("padding-left: 0.5rem"));
    assert!(css.contains("padding-right: 0.5rem"));
    assert!(css.contains(".m-8"));
    assert!(css.contains("margin: 2rem"));
}

#[test]
fn emits_colors() {
    let tokens = parse_class_string("text-red-500 bg-blue-200");
    let css = emit_css(&tokens);
    assert!(css.contains(".text-red-500"));
    assert!(css.contains("color: #ef4444"));
    assert!(css.contains(".bg-blue-200"));
    assert!(css.contains("background-color: #bfdbfe"));
}

#[test]
fn groups_responsive_under_media_query() {
    let tokens = parse_class_string("flex md:flex lg:flex");
    let css = emit_css(&tokens);
    assert!(css.contains("@media (min-width: 768px)"));
    assert!(css.contains("@media (min-width: 1024px)"));
}

#[test]
fn emits_flexbox_expansion() {
    let tokens = parse_class_string("flex-1 flex-col gap-4 justify-around self-center");
    let css = emit_css(&tokens);
    assert!(css.contains(".flex-1"));
    assert!(css.contains("flex: 1 1 0%"));
    assert!(css.contains(".flex-col"));
    assert!(css.contains("flex-direction: column"));
    assert!(css.contains(".gap-4"));
    assert!(css.contains("gap: 1rem"));
    assert!(css.contains(".justify-around"));
    assert!(css.contains("justify-content: space-around"));
    assert!(css.contains(".self-center"));
    assert!(css.contains("align-self: center"));
}

#[test]
fn compiles_basic_utilities() {
    let css = compile_classes("flex p-4 text-red-500");
    assert!(css.contains(".flex"));
    assert!(css.contains(".p-4"));
    assert!(css.contains(".text-red-500"));
}

#[test]
fn handles_responsive_prefix() {
    let css = compile_classes("md:flex");
    assert!(css.contains("@media (min-width: 768px)"));
    assert!(css.contains(".md\\:flex"));
}

#[test]
fn handles_hover_state() {
    let css = compile_classes("hover:bg-blue-500");
    assert!(css.contains(".hover\\:bg-blue-500:hover"));
}

#[test]
fn ignores_unknown_classes() {
    let css = compile_classes("my-custom-class p-4");
    assert!(!css.contains("my-custom-class"));
    assert!(css.contains(".p-4"));
}

#[test]
fn parses_plain_utility() {
    let t = parse_class("flex").unwrap();
    assert_eq!(t.utility, "flex");
    assert!(t.responsive.is_none());
    assert!(t.state.is_none());
}

#[test]
fn parses_responsive_prefixed() {
    let t = parse_class("md:flex").unwrap();
    assert_eq!(t.responsive, Some(ResponsivePrefix::Md));
    assert_eq!(t.utility, "flex");
}

#[test]
fn parses_state_prefixed() {
    let t = parse_class("hover:bg-blue-500").unwrap();
    assert_eq!(t.state, Some(StatePrefix::Hover));
    assert_eq!(t.utility, "bg-blue-500");
}

#[test]
fn parses_responsive_and_state_prefixed() {
    let t = parse_class("md:hover:bg-blue-500").unwrap();
    assert_eq!(t.responsive, Some(ResponsivePrefix::Md));
    assert_eq!(t.state, Some(StatePrefix::Hover));
    assert_eq!(t.utility, "bg-blue-500");
}

#[test]
fn parses_class_string() {
    let tokens = parse_class_string("flex p-4 text-red-500");
    assert_eq!(tokens.len(), 3);
    assert_eq!(tokens[0].utility, "flex");
    assert_eq!(tokens[1].utility, "p-4");
    assert_eq!(tokens[2].utility, "text-red-500");
}

#[test]
fn rejects_unknown_prefix_and_empty_utility() {
    assert!(parse_class("").is_none());
    assert!(parse_class("foo:flex").is_none());
    assert!(parse_class("md:").is_none());
}

#[test]
fn spacing_scale_is_quarter_rem() {
    assert_eq!(utility_to_css("p-0").unwrap(), vec!["padding: 0rem".to_string()]);
    assert_eq!(utility_to_css("p-1").unwrap(), vec!["padding: 0.25rem".to_string()]);
    assert_eq!(utility_to_css("m-3").unwrap(), vec!["margin: 0.75rem".to_string()]);
    assert_eq!(utility_to_css("p-16").unwrap(), vec!["padding: 4rem".to_string()]);
    assert!(utility_to_css("p-17").is_none());
}

#[test]
fn sizes_and_bare_colours() {
    assert_eq!(utility_to_css("w-full").unwrap(), vec!["width: 100%".to_string()]);
    assert_eq!(utility_to_css("h-40").unwrap(), vec!["height: 40px".to_string()]);
    assert_eq!(utility_to_css("text-red").unwrap(), vec!["color: #ef4444".to_string()]);
    assert_eq!(utility_to_css("border-gray-900").unwrap(), vec!["border-color: #111827".to_string()]);
    assert_eq!(utility_to_css("text-xl").unwrap(), vec!["font-size: 1.25rem".to_string()]);
    assert!(utility_to_css("bg-pink-500").is_none());
}

#[test]
fn emission_is_deterministic_and_ordered() {
    let a = compile_classes("lg:p-4 hover:flex flex md:flex");
    let b = compile_classes("lg:p-4 hover:flex flex md:flex");
    assert_eq!(a, b);
    let base = a.find(".flex {").unwrap();
    let hover = a.find(".hover\\:flex:hover").unwrap();
    let md = a.find("@media (min-width: 768px)").unwrap();
    let lg = a.find("@media (min-width: 1024px)").unwrap();
    assert!(base < hover && hover < md && md < lg);
    assert!(a.starts_with("/* kungfu-css bundle \u{2014} auto-generated */\n"));
}

#[test]
fn scans_html_class_attribute() {
    let content = "<div class=\"flex p-4 text-red-500\">hi</div>\n<span className=\"bg-blue-200 hover:bg-blue-500\">x</span>\n";
    let classes = scan_content(content);
    assert!(classes.contains(&"flex".to_string()));
    assert!(classes.contains(&"p-4".to_string()));
    assert!(classes.contains(&"text-red-500".to_string()));
    assert!(classes.contains(&"bg-blue-200".to_string()));
    assert!(classes.contains(&"hover:bg-blue-500".to_string()));
}

#[test]
fn scans_directory_recursively() {
    // The file walk lives with the command-line tool; each file the walk
    // meets goes through the same scanner.
    assert!(is_scanned_extension("html"));
    assert!(is_scanned_extension("tsx"));
    assert!(is_scanned_extension("kng"));
    assert!(!is_scanned_extension("rs"));
    let mut classes = scan_content("<div class=\"container mx-auto\"></div>");
    classes.extend(scan_content(
        "export const Card = () => <div className=\"rounded-lg p-6 shadow\">hi</div>;",
    ));
    for c in ["container", "mx-auto", "rounded-lg", "p-6", "shadow"] {
        assert!(classes.contains(&c.to_string()), "missing {c}");
    }
}

#[test]
fn scanner_lists_each_class_once_in_order() {
    let classes = scan_content("<a class='p-4 flex'></a><b class=\"flex m-2\"></b>");
    assert_eq!(classes, vec!["p-4".to_string(), "flex".to_string(), "m-2".to_string()]);
}

#[test]
fn compiles_scanned_classes() {
    let css = compile_scanned(&vec!["flex p-4".to_string(), "md:flex".to_string()]);
    assert!(css.contains(".flex"));
    assert!(css.contains(".p-4"));
    assert!(css.contains("@media (min-width: 768px)"));
    assert_eq!(css, compile_classes("flex p-4 md:flex"));
}

#[test]
fn unknown_utilities_are_not_tokens() {
    assert!(parse_class("my-custom-class").is_none());
    assert!(parse_class("md:my-custom-class").is_none());
    let tokens = parse_class_string("my-custom-class p-4");
    assert_eq!(tokens.len(), 1);
    assert_eq!(tokens[0].utility, "p-4");
}

#[test]
fn selector_is_the_class_with_colons_escaped() {
    for class in ["md:hover:bg-blue-500", "sm:flex", "focus:p-4", "flex", "2xl:disabled:text-red-500"] {
        let token = parse_class(class).unwrap();
        assert_eq!(token.selector(), class.replace(':', r"\:"));
    }
    assert_eq!(parse_class("md:hover:bg-blue-500").unwrap().selector(), r"md\:hover\:bg-blue-500");
}

#[test]
fn compiled_class_holds_its_escaped_selector() {
    for class in ["md:hover:bg-blue-500", "lg:p-4", "focus:flex", "text-red-500", "2xl:active:m-8"] {
        let css = compile_classes(class);
        assert!(css.contains(&format!(".{}", class.replace(':', r"\:"))), "{class}: {css}");
    }
}

#[test]
fn sheet_lists_blocks_by_increasing_width_with_one_rule_per_token() {
    let css = compile_classes("lg:p-4 unknown-thing sm:flex hover:flex flex md:p-4 md:p-4");
    assert!(css.starts_with("/* kungfu-css bundle \u{2014} auto-generated */\n"));
    let plain = css.find(".flex {").unwrap();
    let hovered = css.find(r".hover\:flex:hover {").unwrap();
    let sm = css.find("@media (min-width: 640px) {").unwrap();
    let md = css.find("@media (min-width: 768px) {").unwrap();
    let lg = css.find("@media (min-width: 1024px) {").unwrap();
    assert!(plain < hovered && hovered < sm && sm < md && md < lg);
    assert_eq!(css.matches("@media").count(), 3);
    assert_eq!(css.matches(r".md\:p-4 {").count(), 2);
    assert_eq!(css.matches(r".sm\:flex {").count(), 1);
    assert!(!css.contains("unknown-thing"));
}
