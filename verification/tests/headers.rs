use wasix_sendmail::args::{
    ApiBackendConfig, BackendConfig, FileBackendConfig, SendmailArgs, SmtpRelayConfig,
    SmtpRelayProtocol,
};
use wasix_sendmail::parser::{parse_email_address, parse_email_headers};
use wasix_sendmail::{
    date_of_message, envelope_sender, escape_display_name, format_rfc5322_date,
    generate_message_id, generate_missing_headers, header_recipients, header_sender, message_id,
    missing_headers_with, prepare_submission, prepend_headers, SubmitError,
};

#[test]
fn test_add_missing_headers_all_missing() {
    let raw_email = "Subject: Test\n\nBody content";
    let headers = parse_email_headers(raw_email);
    let from = parse_email_address("sender@example.com").unwrap();
    let missing = generate_missing_headers(&headers, &from, None);
    let result = prepend_headers(raw_email, &missing);

    assert!(result.contains("From: sender@example.com"));
    assert!(result.contains("Date:"));
    assert!(result.contains("Message-ID:"));
    assert!(result.contains("Subject: Test"));
    assert!(result.contains("Body content"));
}

#[test]
fn test_add_missing_headers_from_exists() {
    let raw_email = "From: existing@example.com\nSubject: Test\n\nBody";
    let headers = parse_email_headers(raw_email);
    let from = parse_email_address("sender@example.com").unwrap();
    let missing = generate_missing_headers(&headers, &from, None);
    let result = prepend_headers(raw_email, &missing);

    // Should not add From header since it exists
    assert!(!result.contains("From: sender@example.com"));
    assert!(result.contains("From: existing@example.com"));
    assert!(result.contains("Date:"));
    assert!(result.contains("Message-ID:"));
}

#[test]
fn test_add_missing_headers_date_exists() {
    let raw_email = "Date: Mon, 1 Jan 2024 12:00:00 +0000\nSubject: Test\n\nBody";
    let headers = parse_email_headers(raw_email);
    let from = parse_email_address("sender@example.com").unwrap();
    let missing = generate_missing_headers(&headers, &from, None);
    let result = prepend_headers(raw_email, &missing);

    assert!(result.contains("From: sender@example.com"));
    // Should not add another Date header
    let date_count = result.matches("Date:").count();
    assert_eq!(date_count, 1);
    assert!(result.contains("Message-ID:"));
}

#[test]
fn test_add_missing_headers_message_id_exists() {
    let raw_email = "Message-ID: <test@example.com>\nSubject: Test\n\nBody";
    let headers = parse_email_headers(raw_email);
    let from = parse_email_address("sender@example.com").unwrap();
    let missing = generate_missing_headers(&headers, &from, None);
    let result = prepend_headers(raw_email, &missing);

    assert!(result.contains("From: sender@example.com"));
    assert!(result.contains("Date:"));
    // Should not add another Message-ID header
    let msgid_count = result.matches("Message-ID:").count();
    assert_eq!(msgid_count, 1);
}

#[test]
fn test_add_missing_headers_no_empty_line() {
    let raw_email = "Subject: Test\nBody content";
    let headers = parse_email_headers(raw_email);
    let from = parse_email_address("sender@example.com").unwrap();
    let missing = generate_missing_headers(&headers, &from, None);
    let result = prepend_headers(raw_email, &missing);

    assert!(result.contains("From: sender@example.com"));
    assert!(result.contains("Date:"));
    assert!(result.contains("Message-ID:"));
}

#[test]
fn test_add_missing_headers_with_fullname() {
    let raw_email = "Subject: Test\n\nBody content";
    let headers = parse_email_headers(raw_email);
    let from = parse_email_address("sender@example.com").unwrap();
    let missing = generate_missing_headers(&headers, &from, Some("John Doe"));
    let result = prepend_headers(raw_email, &missing);

    assert!(result.contains("From: \"John Doe\" <sender@example.com>"));
    assert!(result.contains("Date:"));
    assert!(result.contains("Message-ID:"));
}

#[test]
fn test_add_missing_headers_with_fullname_escapes_quotes() {
    let raw_email = "Subject: Test\n\nBody content";
    let headers = parse_email_headers(raw_email);
    let from = parse_email_address("sender@example.com").unwrap();
    let missing = generate_missing_headers(&headers, &from, Some("John \"Johnny\" Doe"));
    let result = prepend_headers(raw_email, &missing);

    assert!(result.contains("From: \"John \\\"Johnny\\\" Doe\" <sender@example.com>"));
}

#[test]
fn missing_headers_are_exact() {
    let headers = parse_email_headers("Subject: Test\n\nBody");
    let from = parse_email_address("sender@example.com").unwrap();
    let missing = missing_headers_with(
        &headers,
        &from,
        Some("A \\ \"B\""),
        "Mon, 1 Jan 2024 12:00:00 +0000",
        "1234",
    );
    assert_eq!(
        missing,
        vec![
            "From: \"A \\\\ \\\"B\\\"\" <sender@example.com>".to_string(),
            "Date: Mon, 1 Jan 2024 12:00:00 +0000".to_string(),
            "Message-ID: <1234@example.com>".to_string(),
        ]
    );
}

#[test]
fn missing_headers_skip_what_exists() {
    let headers = parse_email_headers("from: x@y.z\nDATE: today\nmessage-id: <1@2>\n\nBody");
    let from = parse_email_address("sender@example.com").unwrap();
    assert!(missing_headers_with(&headers, &from, None, "d", "u").is_empty());

    let headers = parse_email_headers("Date: today\n\nBody");
    assert_eq!(
        missing_headers_with(&headers, &from, None, "d", "u"),
        vec!["From: sender@example.com".to_string(), "Message-ID: <u@example.com>".to_string()]
    );
}

#[test]
fn missing_date_is_added_exactly_where_there_is_none() {
    let from = parse_email_address("sender@example.com").unwrap();
    let headers = parse_email_headers("From: a@b.c\nMessage-ID: <1@2>\n\nBody");
    assert_eq!(
        missing_headers_with(&headers, &from, None, "d", "u"),
        vec!["Date: d".to_string()]
    );
    let missing = generate_missing_headers(&headers, &from, None);
    assert_eq!(missing.len(), 1);
    assert_eq!(missing[0], format!("Date: {}", missing[0].trim_start_matches("Date: ")));
    assert!(missing[0].len() > "Date: ".len());

    let headers = parse_email_headers("dAtE: today\nFrom: a@b.c\nMessage-ID: <1@2>\n\nBody");
    assert!(generate_missing_headers(&headers, &from, None).is_empty());
}

#[test]
fn generated_headers_have_the_stated_form() {
    let headers = parse_email_headers("Subject: s\n\nBody");
    let from = parse_email_address("sender@[10.0.0.1]").unwrap();
    let missing = generate_missing_headers(&headers, &from, None);
    assert_eq!(missing.len(), 3);
    assert_eq!(missing[0], "From: sender@[10.0.0.1]");
    assert!(missing[1].starts_with("Date: "));
    assert!(missing[1].len() > "Date: ".len());
    assert!(missing[2].starts_with("Message-ID: <"));
    assert!(missing[2].ends_with("@[10.0.0.1]>"));
}

#[test]
fn message_ids_differ() {
    let from = parse_email_address("sender@example.com").unwrap();
    let a = generate_message_id(&from);
    let b = generate_message_id(&from);
    assert!(a.starts_with('<') && a.ends_with("@example.com>"));
    assert_ne!(a, b);
    // Between the brackets stands a UUID: 8-4-4-4-12 digits in lower case.
    let uuid: Vec<char> = a["<".len()..a.len() - "@example.com>".len()].chars().collect();
    assert_eq!(uuid.len(), 36);
    for (i, c) in uuid.iter().enumerate() {
        if i == 8 || i == 13 || i == 18 || i == 23 {
            assert_eq!(*c, '-');
        } else {
            assert!(c.is_ascii_digit() || ('a'..='f').contains(c), "character {:?}", c);
        }
    }
    assert_eq!(message_id("abc", &from), "<abc@example.com>");
}

#[test]
fn date_is_found_in_a_formatted_message() {
    let formatted = "From: a@b.c\r\nDate:  Tue, 15 Nov 1994 08:12:31 +0000 \r\nTo: d@e.f\r\n\r\n";
    assert_eq!(
        date_of_message(formatted),
        Some("Tue, 15 Nov 1994 08:12:31 +0000".to_string())
    );
    assert_eq!(date_of_message("Date: one\nDate: two\n"), Some("one".to_string()));
    assert_eq!(date_of_message("Date: "), Some(String::new()));
    assert_eq!(date_of_message("date: lower case\nDate:no space\n Date: indented\n"), None);
    assert_eq!(date_of_message(""), None);
}

#[test]
fn date_of_now_is_formatted() {
    let date = format_rfc5322_date();
    // Such as "Tue, 15 Nov 1994 08:12:31 +0000".
    assert!(date.len() >= 29);
    assert!(date.contains(", "));
    assert!(date.ends_with("+0000") || date.ends_with("-0000"));
    assert_eq!(date, date.trim());
}

#[test]
fn display_name_is_escaped() {
    assert_eq!(escape_display_name("John Doe"), "John Doe");
    assert_eq!(escape_display_name("a\\b"), "a\\\\b");
    assert_eq!(escape_display_name("\""), "\\\"");
    assert_eq!(escape_display_name("\\\""), "\\\\\\\"");
    assert_eq!(escape_display_name(""), "");
}

#[test]
fn headers_are_prepended_with_crlf() {
    assert_eq!(prepend_headers("Subject: s\n\nBody", &[]), "Subject: s\n\nBody");
    assert_eq!(
        prepend_headers("Subject: s\n\nBody", &["A: 1".to_string()]),
        "A: 1\r\nSubject: s\n\nBody"
    );
    assert_eq!(
        prepend_headers("Body", &["A: 1".to_string(), "B: 2".to_string(), "C: 3".to_string()]),
        "A: 1\r\nB: 2\r\nC: 3\r\nBody"
    );
}

fn args(read_recipients_from_headers: bool, from: Option<&str>, recipients: &[&str]) -> SendmailArgs {
    SendmailArgs {
        read_recipients_from_headers,
        ignore_dot: false,
        from: from.map(|a| parse_email_address(a).unwrap()),
        fullname: None,
        verbosity: 0,
        recipients: recipients.iter().map(|a| parse_email_address(a).unwrap()).collect(),
        backend_config: BackendConfig {
            file: FileBackendConfig { file_path: None },
            smtp_relay: SmtpRelayConfig {
                relay_host: None,
                relay_port: 587,
                relay_proto: SmtpRelayProtocol::Opportunistic,
                relay_user: None,
                relay_pass: None,
            },
            api: ApiBackendConfig { api_url: None, api_sender: None, api_token: None },
        },
    }
}

fn texts(list: &[wasix_sendmail::parser::EmailAddress]) -> Vec<&str> {
    list.iter().map(|a| a.as_str()).collect()
}

#[test]
fn recipients_come_from_to_cc_bcc_in_this_order() {
    let headers = parse_email_headers(
        "Bcc: hidden@example.com\nCc: c1@example.com\nTo: a@example.com, B <b@example.com>\nCc: c2@example.com\nTo: z@example.com\n\nBody",
    );
    let recipients = header_recipients(&headers).unwrap();
    assert_eq!(
        texts(&recipients),
        vec![
            "a@example.com",
            "b@example.com",
            "z@example.com",
            "c1@example.com",
            "c2@example.com",
            "hidden@example.com"
        ]
    );
}

#[test]
fn recipients_fail_on_the_first_bad_header() {
    let headers =
        parse_email_headers("To: a@example.com\nCc: not an address\nBcc: <<<\n\nBody");
    let error = header_recipients(&headers).unwrap_err();
    assert_eq!(error.message(), "Invalid email address: not an address");
}

#[test]
fn folding_like_line_does_not_create_extra_recipient() {
    let email = "From: sender@example.com\nTo: victim@example.com\n Bcc: attacker@example.com\nSubject: Fold\n\nBody";
    let result = prepare_submission(&args(true, None, &[]), email);
    match result {
        Err(SubmitError::InvalidRecipients(error)) => {
            assert_eq!(
                error.message(),
                "Invalid email address: victim@example.com Bcc: attacker@example.com"
            );
        }
        other => panic!("expected an error, got: {:?}", other),
    }
}

#[test]
fn sender_comes_from_the_first_from_header() {
    let headers = parse_email_headers("From: \"S\" <s@example.com>, t@example.com\nFrom: u@example.com\n\n");
    assert_eq!(header_sender(&headers).unwrap().as_str(), "s@example.com");
    let headers = parse_email_headers("From: not an address\nFrom: u@example.com\n\n");
    assert_eq!(header_sender(&headers), None);
    let headers = parse_email_headers("Subject: s\n\n");
    assert_eq!(header_sender(&headers), None);
}

#[test]
fn envelope_sender_prefers_the_command_line() {
    let cli = parse_email_address("cli@example.com").unwrap();
    let header = parse_email_address("header@example.com").unwrap();
    assert_eq!(envelope_sender(Some(cli.clone()), Some(header.clone())).as_str(), "cli@example.com");
    assert_eq!(envelope_sender(Some(cli), None).as_str(), "cli@example.com");
    assert_eq!(envelope_sender(None, Some(header)).as_str(), "header@example.com");
    assert_eq!(envelope_sender(None, None).as_str(), "nobody@localhost");
}

#[test]
fn submission_with_recipients_of_the_command_line() {
    let email = "Subject: Test\n\nTest body";
    let submission = prepare_submission(&args(false, None, &["recipient@example.com"]), email).unwrap();
    assert_eq!(submission.envelope_from.as_str(), "nobody@localhost");
    assert_eq!(texts(&submission.recipients), vec!["recipient@example.com"]);
    assert!(submission.raw_email.starts_with("From: nobody@localhost\r\nDate: "));
    assert!(submission.raw_email.contains("\r\nMessage-ID: <"));
    assert!(submission.raw_email.ends_with("@localhost>\r\nSubject: Test\n\nTest body"));
}

#[test]
fn submission_with_recipients_of_the_headers() {
    let email = "From: sender@example.com\nTo: a@example.com,\n\tb@example.com\nCc: c@example.com\nDate: today\nMessage-ID: <1@2>\n\nBody";
    let submission =
        prepare_submission(&args(true, None, &["ignored@example.com"]), email).unwrap();
    assert_eq!(submission.envelope_from.as_str(), "sender@example.com");
    assert_eq!(
        texts(&submission.recipients),
        vec!["a@example.com", "b@example.com", "c@example.com"]
    );
    assert_eq!(submission.raw_email, email);
}

#[test]
fn submission_from_of_the_command_line_overrides_header() {
    let email = "From: header@example.com\nSubject: s\n\nBody";
    let submission = prepare_submission(
        &args(false, Some("override@example.com"), &["recipient@example.com"]),
        email,
    )
    .unwrap();
    assert_eq!(submission.envelope_from.as_str(), "override@example.com");
    assert!(!submission.raw_email.contains("From: override@example.com"));
}

#[test]
fn submission_with_fullname() {
    let mut a = args(false, None, &["recipient@example.com"]);
    a.fullname = Some("John \"Johnny\" Doe".to_string());
    let submission = prepare_submission(&a, "Subject: s\n\nBody").unwrap();
    assert!(submission
        .raw_email
        .starts_with("From: \"John \\\"Johnny\\\" Doe\" <nobody@localhost>\r\n"));
}

#[test]
fn submission_without_recipients_is_an_error() {
    let result = prepare_submission(&args(false, None, &[]), "Subject: s\n\nBody");
    match result {
        Err(error) => {
            assert!(matches!(error, SubmitError::NoRecipients));
            assert_eq!(error.message(), "No recipients specified");
        }
        Ok(_) => panic!("expected an error"),
    }
}

#[test]
fn submission_reading_headers_without_recipients_is_an_error() {
    let result = prepare_submission(&args(true, None, &[]), "From: sender@example.com\n\nBody");
    assert!(matches!(result, Err(SubmitError::NoRecipients)));
    // The recipients of the command line do not count where those of the headers are asked for.
    let result = prepare_submission(
        &args(true, None, &["cli@example.com"]),
        "From: sender@example.com\n\nBody",
    );
    assert!(matches!(result, Err(SubmitError::NoRecipients)));
}
