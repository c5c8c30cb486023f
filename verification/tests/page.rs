use thermo::page::{render_form, MessageKind};

fn expected_page(message: Option<&str>, message_kind: Option<MessageKind>, submitted: bool) -> String {
    let message_class = match message_kind {
        Some(MessageKind::Success) => "message message-success",
        Some(MessageKind::Error) => "message message-error",
        None => "message",
    };

    let message_html = message
        .map(|message| format!("<p class=\"{message_class}\">{message}</p>"))
        .unwrap_or_default();

    let textarea_attrs = if submitted {
        " maxlength=\"244\" required disabled"
    } else {
        " maxlength=\"244\" required"
    };
    let button_attrs = if submitted { " disabled" } else { "" };

    format!(
        r#"<!DOCTYPE html>
<html lang="en">
<head>
  <meta charset="utf-8">
  <meta name="viewport" content="width=device-width, initial-scale=1, maximum-scale=1, user-scalable=no">
  <title>Print Job</title>
  <style>
    :root {{
      color-scheme: dark;
    }}

    * {{
      box-sizing: border-box;
    }}

    body {{
      margin: 0;
      min-height: 100vh;
      background: #000;
      color: #fff;
      font-family: monospace;
      display: flex;
      align-items: center;
      justify-content: center;
      padding: 24px;
    }}

    main {{
      width: min(100%, 720px);
    }}

    form {{
      display: flex;
      flex-direction: column;
      gap: 12px;
    }}

    label {{
      color: #fff;
      font-family: monospace;
      font-size: 16px;
    }}

    textarea {{
      width: 100%;
      min-height: 280px;
      resize: vertical;
      padding: 16px;
      border: 1px solid #fff;
      background: #000;
      color: #fff;
      font: inherit;
      outline: none;
    }}

    textarea:focus {{
      border: 2px solid #fff;
    }}

    .hint,
    .message {{
      font-size: 14px;
      margin: 0;
    }}

    .hint {{
      color: #fff;
    }}

    .disclaimer {{
      color: #9ca3af;
    }}

    .message-success {{
      color: #22c55e;
      font-weight: 700;
    }}

    .message-error {{
      color: #f59e0b;
    }}

    button {{
      align-self: flex-start;
      border: 1px solid #fff;
      background: #fff;
      color: #000;
      padding: 12px 18px;
      font: inherit;
      cursor: pointer;
    }}

    button:disabled {{
      opacity: 0.5;
      cursor: not-allowed;
    }}

    button:active:not(:disabled) {{
      background: #808080;
    }}
  </style>
</head>
<body>
  <main>
    <form method="post" action="/form" id="print-form">
      <label for="text">message</label>
      <textarea id="text" name="text"{textarea_attrs}></textarea>
      <p class="hint disclaimer">I may upload photos of the printed text to my blog, so please consider everything you send here public.</p>
      <p class="hint"><span id="chars-left">244</span> characters left</p>
      {message_html}
      <button type="submit" id="submit-button"{button_attrs}>send</button>
    </form>
    <script>
      const maxChars = 244;
      const textarea = document.getElementById("text");
      const charsLeft = document.getElementById("chars-left");
      const submitButton = document.getElementById("submit-button");

      let isSubmitting = false;
      const submitted = textarea.disabled;

      const updateFormState = () => {{
        const remaining = maxChars - Array.from(textarea.value).length;
        charsLeft.textContent = String(remaining);
        submitButton.disabled = submitted || isSubmitting || remaining < 0;
      }};

      textarea.addEventListener("input", updateFormState);
      document.getElementById("print-form").addEventListener("submit", () => {{
        isSubmitting = true;
        submitButton.disabled = true;
      }});
      updateFormState();
    </script>
  </main>
</body>
</html>
"#
    )
}

#[test]
fn render_form_empty_page() {
    let page = render_form(None, None, false);
    assert_eq!(page, expected_page(None, None, false));
    assert!(page.contains("<textarea id=\"text\" name=\"text\" maxlength=\"244\" required></textarea>"));
    assert!(page.contains("<button type=\"submit\" id=\"submit-button\">send</button>"));
}

#[test]
fn render_form_after_submission() {
    let page = render_form(Some("print job submitted"), Some(MessageKind::Success), true);
    assert_eq!(
        page,
        expected_page(Some("print job submitted"), Some(MessageKind::Success), true)
    );
    assert!(page.contains("<p class=\"message message-success\">print job submitted</p>"));
    assert!(page.contains("maxlength=\"244\" required disabled></textarea>"));
    assert!(page.contains("id=\"submit-button\" disabled>send</button>"));
}

#[test]
fn render_form_with_error() {
    let page = render_form(Some("failed to queue print job"), Some(MessageKind::Error), false);
    assert_eq!(
        page,
        expected_page(Some("failed to queue print job"), Some(MessageKind::Error), false)
    );
    assert!(page.contains("<p class=\"message message-error\">failed to queue print job</p>"));
}

#[test]
fn render_form_message_without_kind() {
    assert_eq!(render_form(Some("note"), None, false), expected_page(Some("note"), None, false));
}
