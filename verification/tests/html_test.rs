use yeti::base::environment;
use yeti::evaluator::try_evaluate_source;
use yeti::expression::{Environment, Expression};
use yeti::modules::html_module;

fn html_env() -> Environment {
    let mut env = environment();
    env.insert("html".to_string(), Expression::Module(html_module()));
    env
}

fn value(source: &str) -> Expression {
    try_evaluate_source(html_env(), source).unwrap().unwrap().1
}

fn string(s: &str) -> Expression {
    Expression::String(s.to_string())
}

#[test]
fn evaluate_html_is_module() {
    assert!(matches!(value("html"), Expression::Module(_)));
}

#[test]
fn evaluate_html_with_only_tag() {
    assert_eq!(value("(html/to-string [:div])"), string("<div></div>"));
}

#[test]
fn evaluate_html_with_child() {
    assert_eq!(value(r#"(html/to-string [:ul [:li "hello"]])"#), string("<ul><li>hello</li></ul>"));
}

#[test]
fn evaluate_html_with_two_children() {
    assert_eq!(
        value(r#"(html/to-string [:ul [:li "first"] [:li "second"]])"#),
        string("<ul><li>first</li><li>second</li></ul>")
    );
}

#[test]
fn evaluate_html_with_attribute() {
    assert_eq!(value(r#"(html/to-string [:div {:class "red"}])"#), string(r#"<div class="red"></div>"#));
}

#[test]
fn evaluate_html_with_attribute_and_doesnt_need_closing_tag() {
    assert_eq!(
        value(r#"(html/to-string [:input {:type "checkbox" :name "agree"}])"#),
        string(r#"<input name="agree" type="checkbox" />"#)
    );
}

#[test]
fn evaluate_html_with_css() {
    let source = r#"
        (html/to-string
         [:style
          {:body {:background-color "red"}}])
        "#;
    assert_eq!(value(source), string("<style>body { background-color: red; }</style>"));
}

#[test]
fn evaluate_html_with_array_of_child() {
    assert_eq!(
        value(r#"(html/to-string [:ul [[:li "first"] [:li "second"]]])"#),
        string("<ul><li>first</li><li>second</li></ul>")
    );
}

#[test]
fn evaluate_html_with_int() {
    assert_eq!(value(r#"(html/to-string [:ul [:li 1] [:li 2]])"#), string("<ul><li>1</li><li>2</li></ul>"));
}
