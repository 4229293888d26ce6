pub mod assign;
