# duckvert

A local file converter: give it files or folders and a target format, and it
converts what it can into one output folder.

The library (`src/`) is verified with Verus. It holds the decisions:

- `category`: the supported extensions and their families (image, audio,
  video, document).
- `paths`: the extension of a source file, the name of a converted file
  (`NAME_converted.FORMAT`, then `NAME_converted-2.FORMAT`, ... so that no
  existing file is overwritten) and the default output folder.
- `route`: direct conversions between formats, and the intermediate formats
  of each family.
- `conversion`: one conversion as a state machine that asks for direct
  conversions and decides what follows from their outcome; every output of a
  conversion is named after the file it started from. `search` proves that
  the machine carries out the recursive search through intermediate formats
  and always ends, that the pairs of formats tried only grow, and that the
  case of the target format does not matter.
- `layout`: where the lines of a text go on PDF pages.
- `pdf_text`: the text of a PDF document: the texts of its pages, in order,
  each followed by a line break. Loading the document and extracting a
  page's text are done by lopdf; what it returns is named, and the joining is
  proved.
- `image_conv`: conversion of an image between image formats (flattened to
  RGB for JPEG), and decoding of an image to RGB pixels. Decoding and
  encoding are done by the image crate; their results are named, and the
  choice of codecs from the file names is proved.
- `session`: the entry of paths and the counts of converted files.

The program (`app/`) reads the user's input, walks folders, reads and writes
files, runs ffmpeg and draws PDF pages.
