use mdsite::cli::get_config_file_path;
use mdsite::cli::Config;
use mdsite::cli::Content;
use mdsite::dist::create_dom;
use mdsite::dist::css_styles;
use mdsite::dist::get_headers;

fn sample_config(latex: bool, theme: &str) -> Config {
    Config {
        title: String::from("My Site"),
        description: String::from("About things"),
        theme: String::from(theme),
        content: Content { latex_enabled: latex },
    }
}

#[test]
fn config_file_path_joins_with_separator() {
    assert_eq!(get_config_file_path("/home/site"), "/home/site/config.toml");
}

#[test]
fn config_file_path_keeps_trailing_separator() {
    assert_eq!(get_config_file_path("/home/site/"), "/home/site/config.toml");
}

#[test]
fn headers_interpolate_title_and_description() {
    let config = sample_config(false, "frappe");
    let expected = format!(
        "{}{}{}{}{}{}",
        "\n    <meta charset=\"UTF-8\">\n    <meta name=\"viewport\" content=\"width=device-width, initial-scale=1.0\">\n    <title>",
        "My Site",
        "</title>\n    <meta name=\"description\" content=\"",
        "About things",
        "\">\n    <link rel=\"stylesheet\" href=\"https://cdn.jsdelivr.net/npm/@catppuccin/highlightjs@1.0.1/css/catppuccin-frappe.css\">\n    <script src=\"https://cdnjs.cloudflare.com/ajax/libs/highlight.js/11.11.1/highlight.min.js\"></script>\n    ",
        "\n    "
    );
    assert_eq!(get_headers(&config), expected);
}

#[test]
fn headers_add_math_script_when_enabled() {
    let config = sample_config(true, "frappe");
    let out = get_headers(&config);
    assert!(out.contains("<script id=\"MathJax-script\" async src=\"https://cdn.jsdelivr.net/npm/mathjax@3/es5/tex-mml-chtml.js\"></script>"));
    let without = get_headers(&sample_config(false, "frappe"));
    assert!(!without.contains("MathJax"));
    assert!(out.contains("<title>My Site</title>"));
}

#[test]
fn frappe_theme_gets_full_palette() {
    let out = css_styles(&sample_config(false, "frappe"));
    assert!(out.contains("--base: #303446;"));
    assert!(out.contains("font-family: Ubuntu, sans-serif;"));
}

#[test]
fn other_themes_fall_back_to_stylesheet_link() {
    let out = css_styles(&sample_config(false, "latte"));
    assert_eq!(out, "\n                <link rel=\"stylesheet\" href=\"https://cdnjs.cloudflare.com/ajax/libs/highlight.js/11.11.1/styles/atom-one-dark.min.css\">\n                ");
}

#[test]
fn dom_wraps_translated_content() {
    let config = sample_config(false, "latte");
    let translated = "<p class=\"\">hi</p>";
    let out = create_dom(translated, &config);
    let expected = format!(
        "{}{}{}{}{}{}{}",
        "\n        <!DOCTYPE html>\n        <html lang=\"en\">\n        <head>\n            ",
        get_headers(&config),
        "\n        </head>\n        <body>\n            <div id=\"content\">",
        translated,
        "</div>\n            <script>hljs.highlightAll();</script>\n        </body>\n        <style>\n            ",
        css_styles(&config),
        "\n        </style>\n        </html>\n        "
    );
    assert_eq!(out, expected);
    assert!(out.contains("<!DOCTYPE html>"));
    assert!(out.contains("<div id=\"content\"><p class=\"\">hi</p></div>"));
}
