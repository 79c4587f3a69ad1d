//! Server transports: the bookkeeping of the WebSocket server.
pub mod websocket_enhanced;
