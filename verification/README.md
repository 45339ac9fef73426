# rusty-axml

Decoder for Android binary XML (AXML), the format of the `AndroidManifest.xml`
inside every APK, written in Verus.

- `src/` is the verified library. Each parser of a chunk of the format has a
  specification over the bytes (`spec_*` functions over `Seq<u8>`), and the
  executable parser is proved to follow it. On top of the decoded element tree,
  the queries (elements by type, by name, component names, permissions, exposed
  components) are proved against spec functions over the tree.
  - `cursor`: a byte cursor and the little-endian reads.
  - `chunks/`: chunk headers, string pools, resource maps, values and the
    resource table.
  - `parser`: the document as a list of elements, its construction chunk by
    chunk, and depth-first iteration.
  - `xml_writer`: rendering the document as text XML with quick-xml.
  - `traversal`: the proof that iteration visits every element exactly once.
  - `apk`: extracting the manifest from the bytes of an APK with `zip`.
- `tests/` runs the library on built byte sequences.
- `app/` is the command-line program: it reads an APK or an AXML file and
  prints the decoded XML.

Usage: `axmlparser <file.apk | file.xml> [output]`
