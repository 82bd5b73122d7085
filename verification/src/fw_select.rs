//! Firmware selection: which embedded images a chip variant and revision
//! boot from.

use vstd::prelude::*;

use crate::chip_id::{ChipRevision, ChipVariant, CHIP_REV_U01};

verus! {

/// The firmware images built into the kernel image; an image that was not
/// built in is empty.
pub struct FirmwareImages {
    /// AIC8801 main firmware (U02/U03/U04).
    pub fw_8801_main: &'static [u8],
    /// AIC8801 patch firmware.
    pub fw_8801_patch: &'static [u8],
    /// AIC8800DC U01 firmware.
    pub fw_dc_u01: &'static [u8],
    /// AIC8800DC U01 patch.
    pub fw_dc_patch_u01: &'static [u8],
    /// AIC8800DC U02 patch (ROM firmware plus patch).
    pub fw_dc_patch_u02: &'static [u8],
    /// AIC8800DC H_U02 patch (high-performance variant).
    pub fw_dc_patch_h_u02: &'static [u8],
    /// AIC8800DC U01 patch table.
    pub fw_dc_patch_tbl_u01: &'static [u8],
    /// AIC8800DC U02 patch table.
    pub fw_dc_patch_tbl_u02: &'static [u8],
    /// AIC8800DC H_U02 patch table.
    pub fw_dc_patch_tbl_h_u02: &'static [u8],
    /// AIC8800D80 U01 firmware.
    pub fw_d80_u01: &'static [u8],
    /// AIC8800D80 U02 firmware.
    pub fw_d80_u02: &'static [u8],
    /// AIC8800D80X2 firmware.
    pub fw_d80x2: &'static [u8],
}

/// The firmware chosen for a chip.
pub struct FirmwareSet {
    /// WiFi main firmware (AIC8801/D80/D80X2) or patch firmware (AIC8800DC).
    pub wl_fw: &'static [u8],
    /// Patch table (AIC8800DC only, empty otherwise).
    pub patch_tbl: &'static [u8],
    /// Extra patch firmware (AIC8801 only, empty otherwise).
    pub wl_patch: &'static [u8],
    /// Description.
    pub desc: &'static str,
}

/// Which firmware a chip boots from, as the three images `(wl_fw,
/// patch_tbl, wl_patch)`; `None` when the variant is unknown or none of its
/// images was built in.
pub open spec fn firmware_choice(chip: ChipVariant, rev: ChipRevision, img: FirmwareImages) -> Option<(Seq<u8>, Seq<u8>, Seq<u8>)> {
    match chip {
        ChipVariant::Aic8801 => {
            if img.fw_8801_main@.len() == 0 {
                None
            } else {
                Some((img.fw_8801_main@, Seq::empty(), img.fw_8801_patch@))
            }
        },
        ChipVariant::Aic8800DC | ChipVariant::Aic8800DW => {
            if img.fw_dc_u01@.len() == 0 && img.fw_dc_patch_u02@.len() == 0 && img.fw_dc_patch_h_u02@.len() == 0 {
                None
            } else if rev.is_chip_id_h {
                Some((img.fw_dc_patch_h_u02@, img.fw_dc_patch_tbl_h_u02@, Seq::empty()))
            } else if rev.rev == CHIP_REV_U01 {
                Some((img.fw_dc_u01@, img.fw_dc_patch_tbl_u01@, Seq::empty()))
            } else {
                Some((img.fw_dc_patch_u02@, img.fw_dc_patch_tbl_u02@, Seq::empty()))
            }
        },
        ChipVariant::Aic8800D80 => {
            if img.fw_d80_u01@.len() == 0 && img.fw_d80_u02@.len() == 0 {
                None
            } else if rev.rev == CHIP_REV_U01 && !rev.is_chip_id_h {
                Some((img.fw_d80_u01@, Seq::empty(), Seq::empty()))
            } else {
                Some((img.fw_d80_u02@, Seq::empty(), Seq::empty()))
            }
        },
        ChipVariant::Aic8800D80X2 => {
            if img.fw_d80x2@.len() == 0 {
                None
            } else {
                Some((img.fw_d80x2@, Seq::empty(), Seq::empty()))
            }
        },
        ChipVariant::Unknown => None,
    }
}

/// Whether some firmware for `chip` was built in; the choice then exists
/// for every revision.
pub open spec fn firmware_available(chip: ChipVariant, img: FirmwareImages) -> bool {
    match chip {
        ChipVariant::Aic8801 => img.fw_8801_main@.len() != 0,
        ChipVariant::Aic8800DC | ChipVariant::Aic8800DW => img.fw_dc_u01@.len() != 0
            || img.fw_dc_patch_u02@.len() != 0 || img.fw_dc_patch_h_u02@.len() != 0,
        ChipVariant::Aic8800D80 => img.fw_d80_u01@.len() != 0 || img.fw_d80_u02@.len() != 0,
        ChipVariant::Aic8800D80X2 => img.fw_d80x2@.len() != 0,
        ChipVariant::Unknown => false,
    }
}

/// The three images of a chosen set.
pub open spec fn set_images(s: FirmwareSet) -> (Seq<u8>, Seq<u8>, Seq<u8>) {
    (s.wl_fw@, s.patch_tbl@, s.wl_patch@)
}

/// The description of the firmware chosen for `chip` at revision `rev`.
pub open spec fn firmware_desc(chip: ChipVariant, rev: ChipRevision) -> Seq<char> {
    match chip {
        ChipVariant::Aic8801 => "AIC8801"@,
        ChipVariant::Aic8800DC | ChipVariant::Aic8800DW => {
            if rev.is_chip_id_h {
                "AIC8800DC H_U02"@
            } else if rev.rev == CHIP_REV_U01 {
                "AIC8800DC U01"@
            } else {
                "AIC8800DC U02"@
            }
        },
        ChipVariant::Aic8800D80 => {
            if rev.rev == CHIP_REV_U01 && !rev.is_chip_id_h {
                "AIC8800D80 U01"@
            } else {
                "AIC8800D80 U02"@
            }
        },
        ChipVariant::Aic8800D80X2 => "AIC8800D80X2"@,
        ChipVariant::Unknown => Seq::empty(),
    }
}

/// An AIC8800DC/DW chip that is not the H variant boots the U01 full
/// firmware with the U01 patch table exactly when its revision is U01; any
/// later revision boots the U02 patch with the U02 patch table (on the ROM
/// firmware).  The description names the revision chosen.
pub proof fn law_dc_revision_choice(chip: ChipVariant, rev: ChipRevision, img: FirmwareImages)
    requires
        chip == ChipVariant::Aic8800DC || chip == ChipVariant::Aic8800DW,
        !rev.is_chip_id_h,
        firmware_available(chip, img),
    ensures
        rev.rev == 1 ==> firmware_choice(chip, rev, img) == Some((img.fw_dc_u01@, img.fw_dc_patch_tbl_u01@, Seq::<u8>::empty())),
        rev.rev != 1 ==> firmware_choice(chip, rev, img)
            == Some((img.fw_dc_patch_u02@, img.fw_dc_patch_tbl_u02@, Seq::<u8>::empty())),
        rev.rev == 1 ==> firmware_desc(chip, rev) == "AIC8800DC U01"@,
        rev.rev != 1 ==> firmware_desc(chip, rev) == "AIC8800DC U02"@,
{
}

/// An AIC8800D80 chip boots its U01 image exactly when it is a U01 chip
/// that is not the H variant, and the U02 image otherwise.
pub proof fn law_d80_revision_choice(rev: ChipRevision, img: FirmwareImages)
    requires
        firmware_available(ChipVariant::Aic8800D80, img),
    ensures
        rev.rev == 1 && !rev.is_chip_id_h ==> firmware_choice(ChipVariant::Aic8800D80, rev, img)
            == Some((img.fw_d80_u01@, Seq::<u8>::empty(), Seq::<u8>::empty())),
        !(rev.rev == 1 && !rev.is_chip_id_h) ==> firmware_choice(ChipVariant::Aic8800D80, rev, img)
            == Some((img.fw_d80_u02@, Seq::<u8>::empty(), Seq::<u8>::empty())),
{
}

/// The images the other variants boot: an AIC8801 its main firmware with
/// its patch firmware, whatever the revision; an AIC8800DC/DW H variant the
/// H_U02 patch with its patch table; an AIC8800D80X2 its one image; an
/// unknown chip nothing.  A chip none of whose images was built in gets
/// nothing.
pub proof fn law_variant_choice(chip: ChipVariant, rev: ChipRevision, img: FirmwareImages)
    ensures
        !firmware_available(chip, img) ==> firmware_choice(chip, rev, img) is None,
        chip == ChipVariant::Aic8801 && img.fw_8801_main@.len() != 0 ==> firmware_choice(chip, rev, img)
            == Some((img.fw_8801_main@, Seq::<u8>::empty(), img.fw_8801_patch@)),
        (chip == ChipVariant::Aic8800DC || chip == ChipVariant::Aic8800DW) && rev.is_chip_id_h
            && firmware_available(chip, img) ==> firmware_choice(chip, rev, img)
            == Some((img.fw_dc_patch_h_u02@, img.fw_dc_patch_tbl_h_u02@, Seq::<u8>::empty())),
        chip == ChipVariant::Aic8800D80X2 && img.fw_d80x2@.len() != 0 ==> firmware_choice(chip, rev, img)
            == Some((img.fw_d80x2@, Seq::<u8>::empty(), Seq::<u8>::empty())),
        chip == ChipVariant::Unknown ==> firmware_choice(chip, rev, img) is None,
{
}

/// Selects the firmware for `chip` at revision `rev` from `images`.
pub fn select_firmware(chip: ChipVariant, rev: &ChipRevision, images: &FirmwareImages) -> (r: Option<FirmwareSet>)
    ensures
        r is Some <==> firmware_available(chip, *images),
        r is Some <==> firmware_choice(chip, *rev, *images) is Some,
        r is Some ==> set_images(r->Some_0) == firmware_choice(chip, *rev, *images)->Some_0,
        r is Some ==> r->Some_0.desc@ == firmware_desc(chip, *rev),
{
    let empty: &'static [u8] = &[];
    assert(empty@ =~= Seq::<u8>::empty());
    match chip {
        ChipVariant::Aic8801 => {
            if images.fw_8801_main.len() == 0 {
                return None;
            }
            Some(FirmwareSet {
                wl_fw: images.fw_8801_main,
                patch_tbl: empty,
                wl_patch: images.fw_8801_patch,
                desc: "AIC8801",
            })
        },
        ChipVariant::Aic8800DC | ChipVariant::Aic8800DW => {
            if images.fw_dc_u01.len() == 0 && images.fw_dc_patch_u02.len() == 0
                && images.fw_dc_patch_h_u02.len() == 0 {
                return None;
            }
            if rev.is_chip_id_h {
                Some(FirmwareSet {
                    wl_fw: images.fw_dc_patch_h_u02,
                    patch_tbl: images.fw_dc_patch_tbl_h_u02,
                    wl_patch: empty,
                    desc: "AIC8800DC H_U02",
                })
            } else if rev.rev == CHIP_REV_U01 {
                Some(FirmwareSet {
                    wl_fw: images.fw_dc_u01,
                    patch_tbl: images.fw_dc_patch_tbl_u01,
                    wl_patch: empty,
                    desc: "AIC8800DC U01",
                })
            } else {
                Some(FirmwareSet {
                    wl_fw: images.fw_dc_patch_u02,
                    patch_tbl: images.fw_dc_patch_tbl_u02,
                    wl_patch: empty,
                    desc: "AIC8800DC U02",
                })
            }
        },
        ChipVariant::Aic8800D80 => {
            if images.fw_d80_u01.len() == 0 && images.fw_d80_u02.len() == 0 {
                return None;
            }
            if rev.rev == CHIP_REV_U01 && !rev.is_chip_id_h {
                Some(FirmwareSet { wl_fw: images.fw_d80_u01, patch_tbl: empty, wl_patch: empty, desc: "AIC8800D80 U01" })
            } else {
                Some(FirmwareSet { wl_fw: images.fw_d80_u02, patch_tbl: empty, wl_patch: empty, desc: "AIC8800D80 U02" })
            }
        },
        ChipVariant::Aic8800D80X2 => {
            if images.fw_d80x2.len() == 0 {
                return None;
            }
            Some(FirmwareSet { wl_fw: images.fw_d80x2, patch_tbl: empty, wl_patch: empty, desc: "AIC8800D80X2" })
        },
        ChipVariant::Unknown => None,
    }
}

} // verus!
