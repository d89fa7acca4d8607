pub mod ex1_03;
pub mod ex1_04;
pub mod ex1_11;
pub mod ex1_12;
pub mod ex1_16;
pub mod ex1_17;
pub mod ex1_19;
pub mod ex1_21_22;
pub mod ex1_32;
pub mod ex1_33;
pub mod ex1_41_42_43_44_45;
pub mod learn_1_3_4;
pub mod ex1_24;
