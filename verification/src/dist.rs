//! Page assembly: the document head, the full page markup around a
//! translated document, and the style sheet for a theme.

use vstd::prelude::*;
use vstd::string::StrSliceExecFns;
use vstd::string::StringExecFns;

use crate::cli::Config;

verus! {

/// The page head markup: charset and viewport declarations, the title and
/// description from the configuration, the highlighting assets, and the
/// math script exactly when it is enabled.
pub open spec fn headers_of(title: Seq<char>, description: Seq<char>, latex_enabled: bool) -> Seq<
    char,
> {
    "\n    <meta charset=\"UTF-8\">\n    <meta name=\"viewport\" content=\"width=device-width, initial-scale=1.0\">\n    <title>"@ + title + "</title>\n    <meta name=\"description\" content=\""@ + description + "\">\n    <link rel=\"stylesheet\" href=\"https://cdn.jsdelivr.net/npm/@catppuccin/highlightjs@1.0.1/css/catppuccin-frappe.css\">\n    <script src=\"https://cdnjs.cloudflare.com/ajax/libs/highlight.js/11.11.1/highlight.min.js\"></script>\n    "@ + (if latex_enabled {
        "<script id=\"MathJax-script\" async src=\"https://cdn.jsdelivr.net/npm/mathjax@3/es5/tex-mml-chtml.js\"></script>"@
    } else {
        Seq::empty()
    }) + "\n    "@
}

/// The head markup for the given configuration.
pub fn get_headers(config: &Config) -> (r: String)
    ensures
        r@ == headers_of(config.title@, config.description@, config.content.latex_enabled),
{
    let mut r = String::new();
    r.append("\n    <meta charset=\"UTF-8\">\n    <meta name=\"viewport\" content=\"width=device-width, initial-scale=1.0\">\n    <title>");
    r.append(config.title.as_str());
    r.append("</title>\n    <meta name=\"description\" content=\"");
    r.append(config.description.as_str());
    r.append("\">\n    <link rel=\"stylesheet\" href=\"https://cdn.jsdelivr.net/npm/@catppuccin/highlightjs@1.0.1/css/catppuccin-frappe.css\">\n    <script src=\"https://cdnjs.cloudflare.com/ajax/libs/highlight.js/11.11.1/highlight.min.js\"></script>\n    ");
    if config.content.latex_enabled {
        r.append("<script id=\"MathJax-script\" async src=\"https://cdn.jsdelivr.net/npm/mathjax@3/es5/tex-mml-chtml.js\"></script>");
    }
    r.append("\n    ");
    proof {
        assert(r@ =~= headers_of(config.title@, config.description@, config.content.latex_enabled));
    }
    r
}

/// The style markup of a theme: the full frappe palette for that theme,
/// and a stylesheet link for any other.
pub open spec fn css_of(theme: Seq<char>) -> Seq<char> {
    if theme == "frappe"@ {
        "\n                    :root {\n                        --base: #303446;\n                        --mantle: #292c3c;\n                        --crust: #232634;\n                        --surface-0: #414559;\n                        --surface-1: #51576d;\n                        --surface-2: #626880;\n                        --overlay-0: #737994;\n                        --overlay-1: #838ba7;\n                        --overlay-2: #949cbb;\n                        --subtext-0: #a5adce;\n                        --subtext-1: #b5bfe2;\n                        --text: #c6d0f5;\n                        --red: #e78284;\n                    }\n\n                    html, body {\n                        margin: 0;\n                        padding: 0;\n                        font-family: Ubuntu, sans-serif;\n                        background-color: var(--base);\n                        color: var(--text);\n                        overflow-x: hidden;\n                    }\n\n                    #content {\n                        margin-left: 2rem;\n                        margin-right: 2rem;\n                        padding: 0;\n                        height: 100vh;\n                        display: flex;\n                        flex-direction: column;\n\n                    }\n\n                    pre {\n                        width: fit-content;\n                        border-radius: 0.5rem;\n                        padding: 1rem;\n                        display: block;\n                        background-color: var(--crust) !important;\n                    }\n\n                    code {\n                        width: fit-content;\n                        background-color: var(--crust) !important;\n                    }\n\n                    hr {\n                        border: none;\n                        border-top: 1px solid var(--overlay-1);\n                        margin: 1rem 0;\n                    }\n\n                    img {\n                        max-width: fit-content;\n                        height: auto;\n                    }\n\n                    video {\n                        max-width: 100%;\n                        height: auto;\n                    }\n\n                    a {\n                        color: var(--text);\n                        text-decoration: none;\n                    }\n\n                    a:hover {\n                        text-decoration: underline;\n                    }\n                "@
    } else {
        "\n                <link rel=\"stylesheet\" href=\"https://cdnjs.cloudflare.com/ajax/libs/highlight.js/11.11.1/styles/atom-one-dark.min.css\">\n                "@
    }
}

/// The style markup for the configured theme.
pub fn css_styles(config: &Config) -> (r: String)
    ensures
        r@ == css_of(config.theme@),
{
    let frappe = "frappe".to_owned();
    if config.theme == frappe {
        "\n                    :root {\n                        --base: #303446;\n                        --mantle: #292c3c;\n                        --crust: #232634;\n                        --surface-0: #414559;\n                        --surface-1: #51576d;\n                        --surface-2: #626880;\n                        --overlay-0: #737994;\n                        --overlay-1: #838ba7;\n                        --overlay-2: #949cbb;\n                        --subtext-0: #a5adce;\n                        --subtext-1: #b5bfe2;\n                        --text: #c6d0f5;\n                        --red: #e78284;\n                    }\n\n                    html, body {\n                        margin: 0;\n                        padding: 0;\n                        font-family: Ubuntu, sans-serif;\n                        background-color: var(--base);\n                        color: var(--text);\n                        overflow-x: hidden;\n                    }\n\n                    #content {\n                        margin-left: 2rem;\n                        margin-right: 2rem;\n                        padding: 0;\n                        height: 100vh;\n                        display: flex;\n                        flex-direction: column;\n\n                    }\n\n                    pre {\n                        width: fit-content;\n                        border-radius: 0.5rem;\n                        padding: 1rem;\n                        display: block;\n                        background-color: var(--crust) !important;\n                    }\n\n                    code {\n                        width: fit-content;\n                        background-color: var(--crust) !important;\n                    }\n\n                    hr {\n                        border: none;\n                        border-top: 1px solid var(--overlay-1);\n                        margin: 1rem 0;\n                    }\n\n                    img {\n                        max-width: fit-content;\n                        height: auto;\n                    }\n\n                    video {\n                        max-width: 100%;\n                        height: auto;\n                    }\n\n                    a {\n                        color: var(--text);\n                        text-decoration: none;\n                    }\n\n                    a:hover {\n                        text-decoration: underline;\n                    }\n                ".to_owned()
    } else {
        "\n                <link rel=\"stylesheet\" href=\"https://cdnjs.cloudflare.com/ajax/libs/highlight.js/11.11.1/styles/atom-one-dark.min.css\">\n                ".to_owned()
    }
}

/// The whole page: head, translated content, highlight call, and styles.
pub open spec fn dom_of(
    translated: Seq<char>,
    title: Seq<char>,
    description: Seq<char>,
    latex_enabled: bool,
    theme: Seq<char>,
) -> Seq<char> {
    "\n        <!DOCTYPE html>\n        <html lang=\"en\">\n        <head>\n            "@ + headers_of(title, description, latex_enabled) + "\n        </head>\n        <body>\n            <div id=\"content\">"@ + translated + "</div>\n            <script>hljs.highlightAll();</script>\n        </body>\n        <style>\n            "@ + css_of(
        theme,
    ) + "\n        </style>\n        </html>\n        "@
}

/// The full page markup around a translated document.
pub fn create_dom(translated: &str, config: &Config) -> (r: String)
    ensures
        r@ == dom_of(
            translated@,
            config.title@,
            config.description@,
            config.content.latex_enabled,
            config.theme@,
        ),
{
    let headers = get_headers(config);
    let styles = css_styles(config);
    let mut r = String::new();
    r.append("\n        <!DOCTYPE html>\n        <html lang=\"en\">\n        <head>\n            ");
    r.append(headers.as_str());
    r.append("\n        </head>\n        <body>\n            <div id=\"content\">");
    r.append(translated);
    r.append("</div>\n            <script>hljs.highlightAll();</script>\n        </body>\n        <style>\n            ");
    r.append(styles.as_str());
    r.append("\n        </style>\n        </html>\n        ");
    proof {
        assert(r@ =~= dom_of(
            translated@,
            config.title@,
            config.description@,
            config.content.latex_enabled,
            config.theme@,
        ));
    }
    r
}

} // verus!
