# mysqldump-for-redshift

Dumps a MySQL table as gzip-compressed JSON lines to S3, in the form that
Redshift's `COPY ... FORMAT JSON` loads.

- `src/` is the verified library: the select queries that read the table
  (`query`, `partition`), the conversion of a row into a JSON record
  (`record`, `calendar`), the gzip compression of the JSON lines
  (`compress`), the naming and chunking of the uploaded objects (`upload`),
  and the text building they share (`text`).
- `app/` is the program around it: command-line arguments, the MySQL and S3
  connections, reading values out of rows, the floating-point partition size,
  and the uploads.
- `tests/` holds the library's tests.
