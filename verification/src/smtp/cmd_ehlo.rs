use vstd::prelude::*;
use smtp_proto::EhloResponse;
use crate::smtp::parser::{mechanism_login, mechanism_plain};
use vstd::utf8::encode_utf8;
use crate::text::{copy_bytes, push_str};

verus! {

/// The message size advertised by default: 25 MiB.
pub const DEFAULT_MAX_MESSAGE_SIZE: usize = 25 * 1024 * 1024;

/// What the EHLO reply depends on.
pub struct EhloContext<'a> {
    pub hostname: &'a str,
    pub max_message_size: usize,
    pub is_tls: bool,
    pub authenticated: bool,
}

impl<'a> EhloContext<'a> {
    /// A plaintext, unauthenticated session advertising the default size.
    pub fn new(hostname: &'a str) -> (ctx: Self)
        ensures
            ctx.hostname == hostname,
            ctx.max_message_size == DEFAULT_MAX_MESSAGE_SIZE,
            !ctx.is_tls,
            !ctx.authenticated,
    {
        EhloContext { hostname, max_message_size: DEFAULT_MAX_MESSAGE_SIZE, is_tls: false, authenticated: false }
    }
}

/// The extension bits of `smtp_proto` that this server advertises.
pub struct ExtensionFlags {
    pub enhanced_status_codes: u32,
    pub eight_bit_mime: u32,
    pub smtp_utf8: u32,
    pub pipelining: u32,
    pub chunking: u32,
    pub start_tls: u32,
    pub auth: u32,
    pub size: u32,
}

/// `smtp_proto`'s `EXT_ENHANCED_STATUS_CODES`, `EXT_8BIT_MIME`,
/// `EXT_SMTP_UTF8`, `EXT_PIPELINING`, `EXT_CHUNKING`, `EXT_START_TLS`,
/// `EXT_AUTH` and `EXT_SIZE`, with the values the crate defines.
#[verifier::external_body]
fn extension_flags() -> (flags: ExtensionFlags)
    ensures
        flags.enhanced_status_codes == 0x800,
        flags.eight_bit_mime == 0x1,
        flags.smtp_utf8 == 0x80_0000,
        flags.pipelining == 0x8_0000,
        flags.chunking == 0x40,
        flags.start_tls == 0x100_0000,
        flags.auth == 0x4,
        flags.size == 0x40_0000,
{
    ExtensionFlags {
        enhanced_status_codes: smtp_proto::EXT_ENHANCED_STATUS_CODES,
        eight_bit_mime: smtp_proto::EXT_8BIT_MIME,
        smtp_utf8: smtp_proto::EXT_SMTP_UTF8,
        pipelining: smtp_proto::EXT_PIPELINING,
        chunking: smtp_proto::EXT_CHUNKING,
        start_tls: smtp_proto::EXT_START_TLS,
        auth: smtp_proto::EXT_AUTH,
        size: smtp_proto::EXT_SIZE,
    }
}

/// What `smtp_proto::EhloResponse::write` renders for a host name, a set of
/// extensions, SASL mechanisms and a size.
pub uninterp spec fn ehlo_rendered(hostname: Seq<char>, capabilities: u32, mechanisms: u64, size: usize) -> Seq<u8>;

/// Builds an `smtp_proto::EhloResponse` with the given fields and writes it
/// to a buffer. The contract names the rendering, which is the crate's own.
#[verifier::external_body]
fn render_ehlo(hostname: &str, capabilities: u32, mechanisms: u64, size: usize) -> (bytes: Vec<u8>)
    ensures
        bytes@ == ehlo_rendered(hostname@, capabilities, mechanisms, size),
{
    let mut response = EhloResponse::new(hostname);
    response.capabilities = capabilities;
    response.auth_mechanisms = mechanisms;
    response.size = size;
    let mut buf = Vec::with_capacity(128);
    response.write(&mut buf).ok();
    buf
}

/// The extensions advertised: enhanced status codes, 8BITMIME, SMTPUTF8,
/// pipelining and chunking always; STARTTLS on a plaintext channel; AUTH on
/// an encrypted channel not yet authenticated; SIZE when a limit is set.
pub open spec fn spec_capabilities(ctx: EhloContext) -> u32 {
    (0x800u32 | 0x1u32 | 0x80_0000u32 | 0x8_0000u32 | 0x40u32) | (if !ctx.is_tls { 0x100_0000u32 } else { 0u32 }) | (
    if ctx.is_tls && !ctx.authenticated { 0x4u32 } else { 0u32 }) | (if ctx.max_message_size > 0 {
        0x40_0000u32
    } else {
        0u32
    })
}

/// PLAIN and LOGIN are offered exactly when AUTH is.
pub open spec fn spec_mechanisms(ctx: EhloContext) -> u64 {
    if ctx.is_tls && !ctx.authenticated { 0x100_0000_0000u64 | 0x80_0000_0000u64 } else { 0u64 }
}

/// The reply to EHLO.
pub fn ehlo_response(ctx: &EhloContext) -> (bytes: Vec<u8>)
    ensures
        bytes@ == ehlo_rendered(
            ctx.hostname@,
            spec_capabilities(*ctx),
            spec_mechanisms(*ctx),
            if ctx.max_message_size > 0 { ctx.max_message_size } else { 0 },
        ),
{
    let flags = extension_flags();
    let mut capabilities = flags.enhanced_status_codes | flags.eight_bit_mime | flags.smtp_utf8 | flags.pipelining
        | flags.chunking;
    capabilities = capabilities | (if !ctx.is_tls { flags.start_tls } else { 0 });
    let mut mechanisms: u64 = 0;
    if ctx.is_tls && !ctx.authenticated {
        mechanisms = mechanism_plain() | mechanism_login();
    }
    capabilities = capabilities | (if ctx.is_tls && !ctx.authenticated { flags.auth } else { 0 });
    let mut size: usize = 0;
    if ctx.max_message_size > 0 {
        size = ctx.max_message_size;
    }
    capabilities = capabilities | (if ctx.max_message_size > 0 { flags.size } else { 0 });
    render_ehlo(ctx.hostname, capabilities, mechanisms, size)
}

/// The text of the reply to HELO: `250 <hostname> at your service`.
pub open spec fn helo_text(hostname: Seq<char>) -> Seq<char> {
    seq!['2', '5', '0', ' '] + hostname + seq![' ', 'a', 't', ' ', 'y', 'o', 'u', 'r', ' ', 's', 'e', 'r', 'v', 'i', 'c', 'e', '\r', '\n']
}

/// The reply to HELO, encoded as UTF-8.
pub fn helo_response(hostname: &str) -> (bytes: Vec<u8>)
    ensures
        bytes@ == encode_utf8(helo_text(hostname@)),
{
    let mut out = String::new();
    push_str(&mut out, "250 ");
    push_str(&mut out, hostname);
    push_str(&mut out, " at your service\r\n");
    proof {
        reveal_strlit("250 ");
        reveal_strlit(" at your service\r\n");
    }
    assert(out@ =~= helo_text(hostname@));
    copy_bytes(out.as_str().as_bytes())
}

} // verus!
