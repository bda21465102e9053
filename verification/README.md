# hydrogen_src

A harness for the HydrogenAudio sample-rate conversion test: it fetches the
test signals (or generates them with octave), runs a converter over them, and
either zips the converted files for upload or analyses them locally and reads
back the scores.

The library under `src/` is written in Verus and verified:

- `path`: Unix paths as byte strings (joining, absolute paths, file name,
  stem, extension), with the meaning `std::path` gives them.
- `listing`: the byte-wise order of paths, sorting, and the sorted list of the
  `.wav` files of a directory.
- `text`: Unicode white space, trimming, and the lines of a text.
- `variant`: the 32-bit and 64-bit sample packs.
- `layout`: the work directory of an upload run and the workspace of a local
  run, and which converter a run uses.
- `analysis`: the role of each file the analysis writes, the text of a metric,
  the converted files renamed without their sample width, and the check of
  the octave packages.
- `cli`: the settings of the ardftsrc and rubato converters and the checks
  made on them.
- `error`: the errors of a run.

`app/` holds what touches the file system, the network, processes and
floating point samples: the two command line programs (`ardftsrc` and
`rubato` subcommands), the download, the archives, the WAV files, the octave
runs and the scores.
