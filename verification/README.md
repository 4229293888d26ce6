# kmeansn

K-means clustering for CSV/NDJSON point streams, with its decisions verified
in Verus.

- `src/` is the verified library. It reads point streams (CSV through the
  `csv` crate, NDJSON through `serde_json`), decides which columns are
  features (`id` and names starting with `_` never are), checks that every
  feature value is a number as `str::parse::<f64>` accepts it, validates fit
  parameters and centroids files, assigns points to their nearest centroid,
  counts cluster sizes, decides convergence, draws random initial centroids
  (`rand`), ranks centroid neighbours, and writes CSV tables. Each public
  function states its result in its contract; the laws that relate them
  (the uniqueness of the neighbour ranking, cluster sizes adding up to the
  number of points, the sortedness of NDJSON columns, ...) are public proof
  functions.
- `app/` is the `kmeansn` command: argument parsing (`clap`), files and
  standard streams, the JSON form of the centroids file (`serde`), and the
  floating-point arithmetic (distances, means, squared errors, k-means++
  seeding, JSON numbers), which the library does not take. Distances reach
  the library as the bit patterns of the (non-negative) values, which order
  as the values do.
- `tests/` exercises the library on concrete inputs.
