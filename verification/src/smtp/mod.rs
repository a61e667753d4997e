pub mod cmd_noop;
pub mod cmd_quit;
pub mod cmd_rset;
pub mod parser;
pub mod cmd_mail;
pub mod cmd_rcpt;
pub mod sub_auth;
pub mod cmd_bdat;
pub mod cmd_data;
pub mod queue_model;
pub mod retry;
pub mod loop_detect;
pub mod queue_lease;
pub mod concurrency;
pub mod dkim_verify;
pub mod arc;
pub mod dmarc;
pub mod spf;
pub mod dnsbl;
pub mod spam_decision;
pub mod ratelimit_in;
pub mod ratelimit_out;
pub mod greylist;
pub mod cmd_auth;
pub mod cmd_ehlo;
pub mod dsn;
pub mod session;
pub mod inbound;
pub mod deliver_out;
pub mod deliver_hook;
pub mod queue_enqueue;
pub mod queue_manager;
pub mod queue_local;
pub mod queue_deliver;
pub mod mx_resolve;
pub mod session_services;
