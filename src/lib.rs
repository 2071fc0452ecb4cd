//! A minimal DNS responder's logic: the message codec (header, questions,
//! answers and names, with one level of compression pointers) and the
//! decisions of a resolver that answers locally or forwards each question to
//! an upstream server.
pub mod args;
pub mod error;
pub mod message;
pub mod resolver;
pub mod utils;

pub use args::Args;
pub use error::Error;
pub use message::header::{
    AuthAnswer, AuthenticData, CheckingDisable, OpCode, Qr, Rcode, RecursionAvailable,
    RecursionDesired, TransactionId, Truncation,
};
pub use message::{Answer, DomainName, Header, Message, Question, Rdata, RecordType};
pub use resolver::{reply_locally, Forwarding};
pub use utils::{read_1_byte, read_2_bytes, read_4_bytes, read_n_bytes, Cursor};
