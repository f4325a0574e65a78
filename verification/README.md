# gptcore

The logic of a UEFI tool that inspects, repairs, backs up and restores GUID
partition tables and the firmware's boot entries, on a machine with no keyboard.
It decides what to overwrite on a disk, so every function states in its contract
exactly what it returns or changes, and Verus proves it.

## Layout

- `src/` is the library. Nothing in it talks to firmware.
  - Tables: `bytes`, `crc`, `guid`, `utf16`, `entry`, `header`, `mbr`, `layout`,
    `repair`, `prevent`.
  - Files: `backup`, `bootcfg`, `meta`, `names`, `order`, `origin`, `volumes`,
    `saved`, `bootsaved`.
  - Boot entries: `bootopt`, `nvram`, `paths`, `bootview`, `bootflow`, `espscan`.
  - Reports: `text`, `style`, `report`, `diag`, `smbios`, `secureboot`, `drive`,
    `probe`, `overview`, `version`.
  - Screens: `gfx`, `console`, `ui`, `pages`, `consent`, `display`, `menus`,
    `plain`.
  - Operations: `disk`, `memdisk`, `disks`, `bootdev`, `fwcrc`, `flows`,
    `rescue`.
  - `image` says what the plans come to on the disk itself: a repaired disk is
    healthy, repairing it again writes nothing, an interrupted repair loses
    nothing, a restored disk holds what was saved.
- `tests/` runs the library on concrete disks, files and screens.
- `app/` is the UEFI application around it: it draws, asks, and carries out.

## How an operation is written

An operation is a conversation. The library is handed every answer so far and
says what comes next, so the order of the screens, and what stands between the
operator and a write, is decided and proved there. The application only loops.

## What is taken on trust

The contracts of a few functions outside the library are believed without proof:
`String::push`, `String::push_str`, `String::from_utf8` and `char::from_u32` of
the standard library, and two conversions of the `uefi` crate, from text to
UCS-2 and from bytes to a device path. A device implements `BlockDevice`, which
promises nothing about whether a request succeeds, and a checksum implements
`Crc32`, which promises the right checksum.
