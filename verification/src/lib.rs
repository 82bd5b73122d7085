//! Verified core of the AIC8800 SDIO WiFi driver, and the argument and
//! descriptor-set logic of the socket and polling system calls.

pub mod chip_id;
pub mod cmd;
pub mod cmsg;
pub mod crypto;
pub mod eapol;
pub mod epoll;
pub mod fw_init;
pub mod fw_select;
pub mod fw_upload;
pub mod ipc;
pub mod lmac_msg;
pub mod polling;
pub mod rx;
pub mod sdhci;
pub mod sdio;
pub mod select;
pub mod tx;
pub mod selftest;
pub mod wifi;
pub mod wpa2;
