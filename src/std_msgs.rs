//! Message types of the `std_msgs` package that bags commonly carry.
use vstd::prelude::*;

use crate::msgs::Msg;

verus! {

/// `std_msgs/Time`.
#[derive(Clone, Copy, Debug, PartialEq, Eq, Structural)]
pub struct Time {
    pub secs: u32,
    pub nsecs: u32,
}

impl Msg for Time {}

/// `std_msgs/Header`.
#[derive(Clone, Debug)]
pub struct Header {
    pub id: u32,
    pub time: Time,
    pub frame_id: String,
}

impl Msg for Header {}

/// `std_msgs/String`.
#[derive(Clone, Debug)]
pub struct StdString {
    pub data: String,
}

impl Msg for StdString {}

/// `std_msgs/MultiArrayLayout`.
#[derive(Clone, Debug)]
pub struct MultiArrayLayout {
    pub dim: Vec<MultiArrayDimension>,
    pub data_offset: u32,
}

impl Msg for MultiArrayLayout {}

/// `std_msgs/MultiArrayDimension`.
#[derive(Clone, Debug)]
pub struct MultiArrayDimension {
    pub label: String,
    pub size: u32,
    pub stride: u32,
}

impl Msg for MultiArrayDimension {}

} // verus!
