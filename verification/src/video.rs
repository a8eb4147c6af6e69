pub mod av;
