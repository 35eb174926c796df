# shred_graphique

Wiping disks with `shred` from a GTK4 window, for a workshop bench: the disks
found by `lsblk`, a multiple selection (up to 10 disks), wipes in parallel
with a progress bar per disk, a Stop button, a SMART summary (`smartctl`), a
signature check after the wipe (`blkid`), and a journal of each session.

The logic is a library verified with Verus (`src/`):

- `text`: lines, whitespace words, trimming, searching, decimal numbers;
- `disk`: `lsblk -P` lines, the mount table, and which disks may be wiped
  (never the one holding `/`, a mounted one or a read-only SSD);
- `system`: the key SMART attributes, the verdict and its reason, the
  outcome of `blkid`;
- `shred`: the progress lines of `shred -v`, input/output errors, how a run
  ends, the privileged helper's allowed operations;
- `logger`: the journal of a session and its readable text;
- `jobs`: the rules of the window (which selection may be wiped, the texts
  shown, the per-disk job records used to retry failures).

`app/` is the program around it: the GTK4 interface, the commands run through
`pkexec` and the helper, the files written.
