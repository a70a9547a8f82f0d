//! What users of the library need.
pub use crate::constant;
pub use crate::dispatch::Dispatch;
pub use crate::error::{
    JsonError, JsonErrorCategory, MsgFromPaketError, TextValidityError, UnusualEmptyEntity,
};
pub use crate::extractor::{
    ExtractorAction, ExtractorReport, PaketsExtractor, ProcessedBuffer, ReadEvent,
};
pub use crate::message::{Message, UserStatus};
pub use crate::prompt::{
    chunk_outcome, prompt_outcome, strip_newline, username_prompt, PromptOutcome, Stdin2Tcp,
    StdinAction, StdinEvent,
};
pub use crate::random::{
    craft_random_msg, craft_random_text, craft_random_text_of_len, random_len_end,
};
pub use crate::server::{
    client_handler_outcome, AcceptAction, AcceptEvent, ClientAction, ClientEvent, ClientHandlerError,
    ClientHandlerErrorCause, ClientReader, FirstPaket, NoHelo, ServerManager,
};
pub use crate::small_error::small_error_text;
pub use crate::text::Utf8Failure;
pub use crate::username::Username;
