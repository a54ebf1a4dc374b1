use vstd::prelude::*;
use vstd::string::*;

verus! {

/// The errors the logger's own logic reports.
///
/// Errors raised by the network, file and JSON libraries are reported by the
/// program around this library; a JSON error found by this library's own
/// checks carries its message.
#[derive(Debug, Clone, PartialEq, Eq)]
pub enum LoggerError {
    WebsocketError(String),
    JsonError(String),
    MarketNotFound(String),
    InvalidAssetId(String),
    ParquetError(String),
    ConfigError(String),
    Config(String),
    Session(String),
}

/// What an error says: its kind and its detail text.
pub enum ErrorView {
    WebsocketError(Seq<char>),
    JsonError(Seq<char>),
    MarketNotFound(Seq<char>),
    InvalidAssetId(Seq<char>),
    ParquetError(Seq<char>),
    ConfigError(Seq<char>),
    Config(Seq<char>),
    Session(Seq<char>),
}

impl View for LoggerError {
    type V = ErrorView;

    open spec fn view(&self) -> ErrorView {
        match self {
            LoggerError::WebsocketError(m) => ErrorView::WebsocketError(m@),
            LoggerError::JsonError(m) => ErrorView::JsonError(m@),
            LoggerError::MarketNotFound(m) => ErrorView::MarketNotFound(m@),
            LoggerError::InvalidAssetId(m) => ErrorView::InvalidAssetId(m@),
            LoggerError::ParquetError(m) => ErrorView::ParquetError(m@),
            LoggerError::ConfigError(m) => ErrorView::ConfigError(m@),
            LoggerError::Config(m) => ErrorView::Config(m@),
            LoggerError::Session(m) => ErrorView::Session(m@),
        }
    }
}

/// The text an error displays: a label for its kind, `": "`, then its detail.
pub open spec fn error_text(e: LoggerError) -> Seq<char> {
    match e {
        LoggerError::WebsocketError(m) => "Websocket Error: "@ + m@,
        LoggerError::JsonError(m) => "Json Error: "@ + m@,
        LoggerError::MarketNotFound(m) => "Market not found: "@ + m@,
        LoggerError::InvalidAssetId(m) => "InvalidAssetId: "@ + m@,
        LoggerError::ParquetError(m) => "Parquet Error: "@ + m@,
        LoggerError::ConfigError(m) => "Config Error: "@ + m@,
        LoggerError::Config(m) => "Parquet Config Error: "@ + m@,
        LoggerError::Session(m) => "Session Error: "@ + m@,
    }
}

impl LoggerError {
    /// The text this error displays.
    pub fn message(&self) -> (text: String)
        ensures
            text@ == error_text(*self),
    {
        let (label, detail) = match self {
            LoggerError::WebsocketError(m) => ("Websocket Error: ", m),
            LoggerError::JsonError(m) => ("Json Error: ", m),
            LoggerError::MarketNotFound(m) => ("Market not found: ", m),
            LoggerError::InvalidAssetId(m) => ("InvalidAssetId: ", m),
            LoggerError::ParquetError(m) => ("Parquet Error: ", m),
            LoggerError::ConfigError(m) => ("Config Error: ", m),
            LoggerError::Config(m) => ("Parquet Config Error: ", m),
            LoggerError::Session(m) => ("Session Error: ", m),
        };
        let mut text = String::from_str(label);
        text.append(detail.as_str());
        text
    }
}

} // verus!
