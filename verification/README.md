# azs_site

The control site of a fuel station: a web server over the station's MySQL database
(dispensers, nozzles, tanks, products, shifts, users) with a local SQLite record of
where that database is.

- `src/` is the verified library:
  - `text`: decimal text of integers and its reading back (`str::parse::<i32>`);
  - `models`: the records, the error type, colour codes;
  - `rows`: what the site makes of the rows its queries return (grouping of
    dispensers, users, shifts, products, the stored screen size, password checks);
  - `queries`: the exact text of every SQL statement that the site builds from
    values (the fixed query strings stand in `app/`);
  - `clock`: the local time as the site writes it;
  - `jwt`: login-token claims and when they are accepted;
  - `azs_db`: the connection state and its steps;
  - `logger`: the grouped log tree;
  - `controllers`, `render_temps`: page decisions and template contents.
- `app/` is the server around it: actix-web routes, sqlx queries, ramhorns templates,
  jsonwebtoken, serde.
- `tests/` runs the library on concrete values.

Floating-point values (prices, scales) are carried through the library by their bits
(`to_bits`/`from_bits`); the arithmetic on them stays in `app/`.
