//! The HTML page of the print form.
use vstd::prelude::*;
use vstd::string::*;

verus! {

/// The page up to the attributes of the text area.
pub const FORM_PAGE_HEAD: &'static str = r#"<!DOCTYPE html>
<html lang="en">
<head>
  <meta charset="utf-8">
  <meta name="viewport" content="width=device-width, initial-scale=1, maximum-scale=1, user-scalable=no">
  <title>Print Job</title>
  <style>
    :root {
      color-scheme: dark;
    }

    * {
      box-sizing: border-box;
    }

    body {
      margin: 0;
      min-height: 100vh;
      background: #000;
      color: #fff;
      font-family: monospace;
      display: flex;
      align-items: center;
      justify-content: center;
      padding: 24px;
    }

    main {
      width: min(100%, 720px);
    }

    form {
      display: flex;
      flex-direction: column;
      gap: 12px;
    }

    label {
      color: #fff;
      font-family: monospace;
      font-size: 16px;
    }

    textarea {
      width: 100%;
      min-height: 280px;
      resize: vertical;
      padding: 16px;
      border: 1px solid #fff;
      background: #000;
      color: #fff;
      font: inherit;
      outline: none;
    }

    textarea:focus {
      border: 2px solid #fff;
    }

    .hint,
    .message {
      font-size: 14px;
      margin: 0;
    }

    .hint {
      color: #fff;
    }

    .disclaimer {
      color: #9ca3af;
    }

    .message-success {
      color: #22c55e;
      font-weight: 700;
    }

    .message-error {
      color: #f59e0b;
    }

    button {
      align-self: flex-start;
      border: 1px solid #fff;
      background: #fff;
      color: #000;
      padding: 12px 18px;
      font: inherit;
      cursor: pointer;
    }

    button:disabled {
      opacity: 0.5;
      cursor: not-allowed;
    }

    button:active:not(:disabled) {
      background: #808080;
    }
  </style>
</head>
<body>
  <main>
    <form method="post" action="/form" id="print-form">
      <label for="text">message</label>
      <textarea id="text" name="text""#;

/// The page from the end of the text area's opening tag up to the message.
pub const FORM_PAGE_MIDDLE: &'static str = r#"></textarea>
      <p class="hint disclaimer">I may upload photos of the printed text to my blog, so please consider everything you send here public.</p>
      <p class="hint"><span id="chars-left">244</span> characters left</p>
      "#;

/// The page from the message up to the attributes of the submit button.
pub const FORM_PAGE_BUTTON: &'static str = r#"
      <button type="submit" id="submit-button""#;

/// The page from the end of the submit button's opening tag to the end.
pub const FORM_PAGE_TAIL: &'static str = r#">send</button>
    </form>
    <script>
      const maxChars = 244;
      const textarea = document.getElementById("text");
      const charsLeft = document.getElementById("chars-left");
      const submitButton = document.getElementById("submit-button");

      let isSubmitting = false;
      const submitted = textarea.disabled;

      const updateFormState = () => {
        const remaining = maxChars - Array.from(textarea.value).length;
        charsLeft.textContent = String(remaining);
        submitButton.disabled = submitted || isSubmitting || remaining < 0;
      };

      textarea.addEventListener("input", updateFormState);
      document.getElementById("print-form").addEventListener("submit", () => {
        isSubmitting = true;
        submitButton.disabled = true;
      });
      updateFormState();
    </script>
  </main>
</body>
</html>
"#;

/// The kind of a message shown on the form page.
#[derive(Clone, Copy, PartialEq, Eq, Debug)]
pub enum MessageKind {
    Success,
    Error,
}

/// The CSS class of a message of the given kind.
pub open spec fn message_class_spec(kind: Option<MessageKind>) -> Seq<char> {
    match kind {
        Some(MessageKind::Success) => "message message-success"@,
        Some(MessageKind::Error) => "message message-error"@,
        None => "message"@,
    }
}

/// The paragraph showing a message, or nothing without a message.
pub open spec fn message_html_spec(message: Option<Seq<char>>, kind: Option<MessageKind>) -> Seq<
    char,
> {
    match message {
        Some(m) => "<p class=\""@ + message_class_spec(kind) + "\">"@ + m + "</p>"@,
        None => seq![],
    }
}

/// The text area's attributes: it is disabled once a job was submitted.
pub open spec fn textarea_attrs_spec(submitted: bool) -> Seq<char> {
    if submitted {
        " maxlength=\"244\" required disabled"@
    } else {
        " maxlength=\"244\" required"@
    }
}

/// The submit button's attributes: it is disabled once a job was submitted.
pub open spec fn button_attrs_spec(submitted: bool) -> Seq<char> {
    if submitted {
        " disabled"@
    } else {
        ""@
    }
}

/// The form page: the fixed page with the text area's attributes, the
/// message and the button's attributes put in their places.
pub open spec fn form_page_spec(message: Option<Seq<char>>, kind: Option<MessageKind>, submitted: bool) -> Seq<char> {
    FORM_PAGE_HEAD@ + textarea_attrs_spec(submitted) + FORM_PAGE_MIDDLE@ + message_html_spec(message, kind)
        + FORM_PAGE_BUTTON@ + button_attrs_spec(submitted) + FORM_PAGE_TAIL@
}

fn message_class(kind: Option<MessageKind>) -> (class: &'static str)
    ensures
        class@ == message_class_spec(kind),
{
    match kind {
        Some(MessageKind::Success) => "message message-success",
        Some(MessageKind::Error) => "message message-error",
        None => "message",
    }
}

/// Renders the print form page, showing `message` (styled by
/// `message_kind`) if there is one; after a submission (`submitted`) the
/// text area and the button are disabled.
pub fn render_form(message: Option<&str>, message_kind: Option<MessageKind>, submitted: bool) -> (page: String)
    ensures
        page@ == form_page_spec(
            match message {
                Some(m) => Some(m@),
                None => None,
            },
            message_kind,
            submitted,
        ),
{
    let message_class = message_class(message_kind);
    let mut message_html = String::new();
    match message {
        Some(m) => {
            message_html.append("<p class=\"");
            message_html.append(message_class);
            message_html.append("\">");
            message_html.append(m);
            message_html.append("</p>");
        },
        None => {},
    }
    let textarea_attrs = if submitted {
        " maxlength=\"244\" required disabled"
    } else {
        " maxlength=\"244\" required"
    };
    let button_attrs = if submitted {
        " disabled"
    } else {
        ""
    };
    let mut page = String::new();
    page.append(FORM_PAGE_HEAD);
    page.append(textarea_attrs);
    page.append(FORM_PAGE_MIDDLE);
    page.append(message_html.as_str());
    page.append(FORM_PAGE_BUTTON);
    page.append(button_attrs);
    page.append(FORM_PAGE_TAIL);
    proof {
        let m = match message {
            Some(m) => Some(m@),
            None => None::<Seq<char>>,
        };
        assert(message_html@ =~= message_html_spec(m, message_kind));
    }
    page
}

} // verus!
