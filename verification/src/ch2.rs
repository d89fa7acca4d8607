pub mod ex2_01;
pub mod ex2_05;
pub mod ex2_17_18;
pub mod ex2_19;
pub mod ex2_20;
pub mod ex2_21_23;
pub mod ex2_25_28;
pub mod ex2_29;
pub mod ex2_30_32;
pub mod ex2_33_35;
