pub mod echo;
