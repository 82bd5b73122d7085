# aic8800

A driver for the AIC8800 family of SDIO Wi-Fi chips (AIC8801, AIC8800DC/DW,
AIC8800D80/D80X2) on the SG2002 SDIO1 controller, with WPA2-PSK, and the
descriptor-set and control-message logic of the `select`, `epoll` and
`sendmsg`/`recvmsg` system calls. The library is written in Verus: each
function carries a `requires`/`ensures` contract that Verus proves.

## Layout

- `src/` — the verified library
  - `sdio`, `sdhci` — the SDIO host trait and the SDHCI controller driver
    (command encodings, CMD52/CMD53 transfers, card enumeration)
  - `chip_id`, `fw_select`, `ipc`, `fw_upload`, `fw_init` — chip
    identification, firmware selection, the IPC transport to the chip's
    debug task, and the firmware upload and boot sequences
  - `lmac_msg`, `tx`, `rx`, `cmd`, `polling`, `wifi` — LMAC messages, the
    transmit and receive paths, command parameters and confirmations, and
    the station bring-up decisions
  - `crypto`, `eapol`, `wpa2`, `selftest` — PBKDF2/PRF/MIC/AES key unwrap
    on top of the `hmac`, `sha1` and `aes` crates, EAPOL-Key frames, the
    4-way handshake state machine and the crypto self tests
  - `select`, `epoll`, `cmsg` — system call argument and descriptor-set
    logic
- `tests/` — tests of the library on concrete values
- `app/` — the program around the library: memory-mapped registers, the
  receive and transmit threads, command waiting, and the bring-up sequence

The only trusted items are the calls into `hmac`/`sha1` and `aes`, and the
spin-loop hint.

Exchanges with the chip are stated over a log of every call made to the
SDIO host and what it returned: each protocol (the IPC request/confirm
exchange, polled commands, command and data writes, FIFO drains, card
enumeration) is a step function over that log, and the multi-request
sequences (firmware upload, the per-chip boots, the whole firmware
initialisation) are scripts of such exchanges.

The SDHCI controller keeps the same kind of log one level lower: every
register read and write it makes, with the value read or written. An SD
command, a CMD52 byte transfer, a CMD53 block transfer (the words moved
through the data port among them), the clock programming and the reset and
clock-stable waits are each stated as a walk over that register log, and the
card enumeration (down to the CIS bytes that carry the vendor and device IDs)
as a walk over a log of the enumeration's steps.
