//! A node-graph front end for ffmpeg: the graph, the command lines that it
//! stands for, and the state machine of the editor around it.
pub mod text;
pub mod text_laws;
pub mod fields;
pub mod graph;
pub mod ffmpeg;
pub mod paths;
pub mod player;
pub mod tool_laws;
pub mod line;
pub mod app;
