use vstd::prelude::*;
use smtp_proto::Error as WireParserError;
use smtp_proto::Request as WireParserRequest;
use crate::text::push_str;

verus! {

#[derive(Clone, Debug, PartialEq, Eq)]
pub enum Command {
    Ehlo { host: String },
    Helo { host: String },
    Mail { from: MailParams },
    Rcpt { to: RcptParams },
    Data,
    Bdat { chunk_size: usize, is_last: bool },
    StartTls,
    Auth { mechanism: AuthMechanism, initial_response: String },
    Rset,
    Noop,
    Quit,
}

#[derive(Clone, Debug, PartialEq, Eq)]
pub struct MailParams {
    pub address: String,
    pub size: usize,
    pub body_8bitmime: bool,
    pub smtputf8: bool,
}

#[derive(Clone, Debug, PartialEq, Eq)]
pub struct RcptParams {
    pub address: String,
}

#[derive(Clone, Copy, Debug, PartialEq, Eq)]
pub enum AuthMechanism {
    Plain,
    Login,
    Unsupported,
}

#[derive(Clone, Debug, PartialEq, Eq)]
pub enum ParseError {
    Incomplete,
    UnknownCommand,
    Unsupported,
    InvalidSender,
    InvalidRecipient,
    Syntax(&'static str),
    InvalidParameter(&'static str),
    UnsupportedParameter(String),
}

/// The description of a parse error.
pub open spec fn parse_error_text(e: ParseError) -> Seq<char> {
    match e {
        ParseError::Incomplete => "command line incomplete"@,
        ParseError::UnknownCommand => "unrecognized command"@,
        ParseError::Unsupported => "command not supported"@,
        ParseError::InvalidSender => "invalid sender address"@,
        ParseError::InvalidRecipient => "invalid recipient address"@,
        ParseError::Syntax(syntax) => "syntax error, expected "@ + syntax@,
        ParseError::InvalidParameter(param) => "invalid "@ + param@ + " parameter"@,
        ParseError::UnsupportedParameter(param) => "unsupported parameter "@ + param@,
    }
}

impl ParseError {
    /// The error as text.
    pub fn to_string(&self) -> (text: String)
        ensures
            text@ == parse_error_text(*self),
    {
        let mut text = String::new();
        match self {
            ParseError::Incomplete => push_str(&mut text, "command line incomplete"),
            ParseError::UnknownCommand => push_str(&mut text, "unrecognized command"),
            ParseError::Unsupported => push_str(&mut text, "command not supported"),
            ParseError::InvalidSender => push_str(&mut text, "invalid sender address"),
            ParseError::InvalidRecipient => push_str(&mut text, "invalid recipient address"),
            ParseError::Syntax(syntax) => {
                push_str(&mut text, "syntax error, expected ");
                push_str(&mut text, syntax);
            },
            ParseError::InvalidParameter(param) => {
                push_str(&mut text, "invalid ");
                push_str(&mut text, param);
                push_str(&mut text, " parameter");
            },
            ParseError::UnsupportedParameter(param) => {
                push_str(&mut text, "unsupported parameter ");
                push_str(&mut text, param.as_str());
            },
        }
        assert(text@ =~= parse_error_text(*self));
        text
    }
}

/// A request line as the wire parser reports it: the verbs this server
/// serves, with their fields as the parser hands them over, and `Other` for
/// every verb it does not serve.
#[derive(Clone, Debug, PartialEq, Eq)]
pub enum WireRequest {
    Ehlo(String),
    Helo(String),
    Mail(String, usize, u64),
    Rcpt(String),
    Data,
    Bdat(usize, bool),
    StartTls,
    Auth(u64, String),
    Rset,
    Noop,
    Quit,
    Other,
}

/// The wire parser's error, variant for variant.
#[derive(Clone, Debug, PartialEq, Eq)]
pub enum WireError {
    NeedsMoreData,
    UnknownCommand,
    InvalidSenderAddress,
    InvalidRecipientAddress,
    SyntaxError(&'static str),
    InvalidParameter(&'static str),
    UnsupportedParameter(String),
    ResponseTooLong,
    InvalidResponse,
}

/// What `smtp_proto::Request::parse` makes of a command line: the request,
/// or the error it reports.
pub uninterp spec fn wire_request(line: Seq<u8>) -> Result<WireRequest, WireError>;

/// Calls `smtp_proto::Request::parse` on the line and, when it yields a
/// request, converts it variant by variant into `WireRequest` (verbs that
/// this server does not serve become `Other`). The contract claims only that
/// the outcome is a function of the line; which lines the parser accepts is
/// its own grammar and is not stated.
#[verifier::external_body]
fn read_request(line: &[u8]) -> (res: Option<WireRequest>)
    ensures
        match wire_request(line@) {
            Ok(request) => res == Some(request),
            Err(_) => res is None,
        },
{
    Some(match WireParserRequest::parse(&mut line.iter()).ok()? {
        WireParserRequest::Ehlo { host } => WireRequest::Ehlo(host.into_owned()),
        WireParserRequest::Helo { host } => WireRequest::Helo(host.into_owned()),
        WireParserRequest::Mail { from } => WireRequest::Mail(from.address.into_owned(), from.size, from.flags),
        WireParserRequest::Rcpt { to } => WireRequest::Rcpt(to.address.into_owned()),
        WireParserRequest::Bdat { chunk_size, is_last } => WireRequest::Bdat(chunk_size, is_last),
        WireParserRequest::Auth { mechanism, initial_response } => WireRequest::Auth(mechanism, initial_response.into_owned()),
        WireParserRequest::Data => WireRequest::Data, WireParserRequest::StartTls => WireRequest::StartTls,
        WireParserRequest::Rset => WireRequest::Rset, WireParserRequest::Quit => WireRequest::Quit,
        WireParserRequest::Noop { .. } => WireRequest::Noop, _ => WireRequest::Other,
    })
}

/// Calls `smtp_proto::Request::parse` on the line and, when it reports an
/// error, converts that error variant by variant into `WireError`. Nothing
/// is claimed of which lines fail, or with which error, beyond that the
/// outcome is the same parse as `read_request` reports.
#[verifier::external_body]
fn read_request_error(line: &[u8]) -> (res: Option<WireError>)
    ensures
        match wire_request(line@) {
            Ok(_) => res is None,
            Err(error) => res == Some(error),
        },
{
    let error = WireParserRequest::parse(&mut line.iter()).err()?;
    Some(match error {
        WireParserError::NeedsMoreData { .. } => WireError::NeedsMoreData,
        WireParserError::UnknownCommand => WireError::UnknownCommand,
        WireParserError::InvalidSenderAddress => WireError::InvalidSenderAddress,
        WireParserError::InvalidRecipientAddress => WireError::InvalidRecipientAddress,
        WireParserError::SyntaxError { syntax } => WireError::SyntaxError(syntax),
        WireParserError::InvalidParameter { param } => WireError::InvalidParameter(param),
        WireParserError::UnsupportedParameter { param } => WireError::UnsupportedParameter(param),
        WireParserError::ResponseTooLong => WireError::ResponseTooLong,
        WireParserError::InvalidResponse { .. } => WireError::InvalidResponse,
    })
}

/// `smtp_proto::MAIL_BODY_8BITMIME`, the MAIL parameter flag for BODY=8BITMIME.
#[verifier::external_body]
fn flag_body_8bitmime() -> (flag: u64)
    ensures
        flag == 2,
{
    smtp_proto::MAIL_BODY_8BITMIME
}

/// `smtp_proto::MAIL_SMTPUTF8`, the MAIL parameter flag for SMTPUTF8.
#[verifier::external_body]
fn flag_smtputf8() -> (flag: u64)
    ensures
        flag == 32,
{
    smtp_proto::MAIL_SMTPUTF8
}

/// `smtp_proto::AUTH_PLAIN`, the mechanism code of SASL PLAIN.
#[verifier::external_body]
pub(crate) fn mechanism_plain() -> (code: u64)
    ensures
        code == 0x100_0000_0000u64,
{
    smtp_proto::AUTH_PLAIN
}

/// `smtp_proto::AUTH_LOGIN`, the mechanism code of SASL LOGIN.
#[verifier::external_body]
pub(crate) fn mechanism_login() -> (code: u64)
    ensures
        code == 0x80_0000_0000u64,
{
    smtp_proto::AUTH_LOGIN
}

pub open spec fn spec_auth_mechanism(code: u64) -> AuthMechanism {
    if code == 0x100_0000_0000u64 {
        AuthMechanism::Plain
    } else if code == 0x80_0000_0000u64 {
        AuthMechanism::Login
    } else {
        AuthMechanism::Unsupported
    }
}

/// The SASL mechanism named by a wire mechanism code.
pub fn auth_mechanism(code: u64) -> (mechanism: AuthMechanism)
    ensures
        mechanism == spec_auth_mechanism(code),
{
    if code == mechanism_plain() {
        AuthMechanism::Plain
    } else if code == mechanism_login() {
        AuthMechanism::Login
    } else {
        AuthMechanism::Unsupported
    }
}

pub open spec fn spec_map_wire_error(error: WireError) -> ParseError {
    match error {
        WireError::NeedsMoreData => ParseError::Incomplete,
        WireError::UnknownCommand => ParseError::UnknownCommand,
        WireError::InvalidSenderAddress => ParseError::InvalidSender,
        WireError::InvalidRecipientAddress => ParseError::InvalidRecipient,
        WireError::SyntaxError(syntax) => ParseError::Syntax(syntax),
        WireError::InvalidParameter(param) => ParseError::InvalidParameter(param),
        WireError::UnsupportedParameter(param) => ParseError::UnsupportedParameter(param),
        WireError::ResponseTooLong | WireError::InvalidResponse => ParseError::Syntax("command"),
    }
}

/// The library's error for a wire parser error.
pub fn map_wire_error(error: WireError) -> (mapped: ParseError)
    ensures
        mapped == spec_map_wire_error(error),
{
    match error {
        WireError::NeedsMoreData => ParseError::Incomplete,
        WireError::UnknownCommand => ParseError::UnknownCommand,
        WireError::InvalidSenderAddress => ParseError::InvalidSender,
        WireError::InvalidRecipientAddress => ParseError::InvalidRecipient,
        WireError::SyntaxError(syntax) => ParseError::Syntax(syntax),
        WireError::InvalidParameter(param) => ParseError::InvalidParameter(param),
        WireError::UnsupportedParameter(param) => ParseError::UnsupportedParameter(param),
        WireError::ResponseTooLong | WireError::InvalidResponse => ParseError::Syntax("command"),
    }
}

pub open spec fn spec_command_of(request: WireRequest) -> Result<Command, ParseError> {
    match request {
        WireRequest::Ehlo(host) => Ok(Command::Ehlo { host }),
        WireRequest::Helo(host) => Ok(Command::Helo { host }),
        WireRequest::Mail(address, size, flags) => Ok(Command::Mail {
            from: MailParams {
                address,
                size,
                body_8bitmime: flags & 2 != 0,
                smtputf8: flags & 32 != 0,
            },
        }),
        WireRequest::Rcpt(address) => Ok(Command::Rcpt { to: RcptParams { address } }),
        WireRequest::Data => Ok(Command::Data),
        WireRequest::Bdat(chunk_size, is_last) => Ok(Command::Bdat { chunk_size, is_last }),
        WireRequest::StartTls => Ok(Command::StartTls),
        WireRequest::Auth(mechanism, initial_response) => Ok(Command::Auth {
            mechanism: spec_auth_mechanism(mechanism),
            initial_response,
        }),
        WireRequest::Rset => Ok(Command::Rset),
        WireRequest::Noop => Ok(Command::Noop),
        WireRequest::Quit => Ok(Command::Quit),
        WireRequest::Other => Err(ParseError::Unsupported),
    }
}

/// The parameters of the MAIL command that a wire MAIL request stands for.
pub open spec fn mail_params_of(address: String, size: usize, flags: u64) -> Option<MailParams> {
    match spec_command_of(WireRequest::Mail(address, size, flags)) {
        Ok(Command::Mail { from }) => Some(from),
        _ => None,
    }
}

/// Each MAIL parameter is read from its own flag: a MAIL request always
/// parses to a MAIL command with its address and size; SMTPUTF8 holds exactly
/// when the SMTPUTF8 flag is set and BODY=8BITMIME exactly when the 8BITMIME
/// flag is set, and flipping either flag leaves the other parameter as it was.
pub proof fn lemma_mail_parameters_follow_their_flags(address: String, size: usize, flags: u64)
    ensures
        mail_params_of(address, size, flags) matches Some(p) && p.address == address && p.size == size,
        mail_params_of(address, size, flags ^ 2).unwrap().smtputf8 == mail_params_of(
            address,
            size,
            flags,
        ).unwrap().smtputf8,
        mail_params_of(address, size, flags ^ 32).unwrap().body_8bitmime == mail_params_of(
            address,
            size,
            flags,
        ).unwrap().body_8bitmime,
        mail_params_of(address, size, flags | 32).unwrap().smtputf8,
        !mail_params_of(address, size, flags & !32u64).unwrap().smtputf8,
        mail_params_of(address, size, flags | 2).unwrap().body_8bitmime,
        !mail_params_of(address, size, flags & !2u64).unwrap().body_8bitmime,
{
    assert((flags ^ 2) & 32 == flags & 32) by (bit_vector);
    assert((flags ^ 32) & 2 == flags & 2) by (bit_vector);
    assert((flags | 32) & 32 != 0) by (bit_vector);
    assert((flags & !32u64) & 32 == 0) by (bit_vector);
    assert((flags | 2) & 2 != 0) by (bit_vector);
    assert((flags & !2u64) & 2 == 0) by (bit_vector);
}

/// The command that a parsed request line stands for; a verb this server
/// does not serve is `Unsupported`.
pub fn command_of(request: WireRequest) -> (command: Result<Command, ParseError>)
    ensures
        command == spec_command_of(request),
{
    match request {
        WireRequest::Ehlo(host) => Ok(Command::Ehlo { host }),
        WireRequest::Helo(host) => Ok(Command::Helo { host }),
        WireRequest::Mail(address, size, flags) => Ok(Command::Mail {
            from: MailParams {
                address,
                size,
                body_8bitmime: flags & flag_body_8bitmime() != 0,
                smtputf8: flags & flag_smtputf8() != 0,
            },
        }),
        WireRequest::Rcpt(address) => Ok(Command::Rcpt { to: RcptParams { address } }),
        WireRequest::Data => Ok(Command::Data),
        WireRequest::Bdat(chunk_size, is_last) => Ok(Command::Bdat { chunk_size, is_last }),
        WireRequest::StartTls => Ok(Command::StartTls),
        WireRequest::Auth(mechanism, initial_response) => Ok(Command::Auth {
            mechanism: auth_mechanism(mechanism),
            initial_response,
        }),
        WireRequest::Rset => Ok(Command::Rset),
        WireRequest::Noop => Ok(Command::Noop),
        WireRequest::Quit => Ok(Command::Quit),
        WireRequest::Other => Err(ParseError::Unsupported),
    }
}

pub open spec fn spec_parse_command(line: Seq<u8>) -> Result<Command, ParseError> {
    match wire_request(line) {
        Ok(request) => spec_command_of(request),
        Err(error) => Err(spec_map_wire_error(error)),
    }
}

/// Parses one SMTP command line: the wire parser reads the line, and its
/// request or error is translated into the library's command or error.
pub fn parse_command(line: &[u8]) -> (command: Result<Command, ParseError>)
    ensures
        command == spec_parse_command(line@),
{
    match read_request(line) {
        Some(request) => command_of(request),
        None => match read_request_error(line) {
            Some(error) => Err(map_wire_error(error)),
            None => Err(ParseError::Incomplete),
        },
    }
}

} // verus!
