# hsd_data_process

Reading and organizing Himawari Standard Data (HSD) satellite files, with the
reading and organizing logic verified by Verus.

## Layout

- `src/` — the verified library.
  - `bytes.rs`: fixed-width integers in either byte order (through `byteorder`).
  - `text.rs`: NUL-padded text fields: lossy UTF-8 decoding and trimming.
  - `file_struct.rs`: the records of an HSD file (floating-point fields are
    kept as their IEEE-754 bit patterns).
  - `reader.rs`: the layout of header blocks #1 to #11 and of the pixel
    counts; bzip2 decompression (through `bzip2`) and `HsdFile::build`.
  - `names.rs`: full-disk HSD file names: fields, band, segment, time stamp.
  - `order.rs`: the byte order of strings and sorted lists of distinct strings.
  - `organizer.rs`: grouping files by observation time, segment and band.
  - `layout.rs`: the header and size of Rayleigh lookup-table files, the
    lengths of the geometry arrays, and the ranges of runs of image lines.
- `tests/` — tests of the library on concrete files and names.
- `app/` — the program: file and directory access, and all floating-point
  processing (calibration, Lanczos resampling, solar geometry, Rayleigh
  correction, colour conversion, TIFF output).
