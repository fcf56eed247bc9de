# lanzaboote

Secure Boot for NixOS: an installer that puts signed stub images for every NixOS generation
on the EFI system partition, and the pieces of the UEFI stub that decide what to boot.

- `src/` is the library, verified with Verus. It holds the installer's decisions (which
  generations, read from their `boot.json`, under which content-addressed names, with which
  kernel command line, when systemd-boot is replaced, what is garbage on the ESP), the os-release parser and renderer,
  the systemd version parser and order, the CPIO `newc` writer and the companion initrds of the
  stub, the PE section handling and image loading, the measurement plan of the stub, and the
  merging of signed PCR policies. Every public function states what it returns in its
  contract; the laws that span several functions are public proof functions named `law_*`.
- `tests/` exercise the library on concrete values.
- `app/` is the `lzbt` command: argument parsing, logging, the file system, and the external
  tools (`objcopy`, `sbsign`, `sbverify`, `systemd-measure`).

Calls into other crates (`goblin`, `sha2`, `base32ct`, `bootspec`, `serde_json`, `time`,
`fastrand`) and a
few std functions stand behind small trusted wrappers whose doc comments say what their
contracts claim.
