//! A minimal HTTP/1.1 message model: decoding request text into a typed
//! request and encoding a response into wire text.
pub mod text;
pub mod httprequest;
pub mod httpresponse;
