# lean http client based on curl

A small blocking HTTP client on top of libcurl, built for exchanging parameters and files with services (multipart,
form-urlencoded and raw bodies).

- `src/` is the library, verified with Verus: how a request is put together from its parameters, what is handed to the
  transfer, how the lines and blocks of a response are put together, and how a response is read back into parameters.
- `app/` sends the prepared request with libcurl and hands what comes back to the library.
- `tests/` runs the library on concrete values.

One body parameter is sent raw, several simple ones form-urlencoded, anything with a file in it as multipart. Query
parameters in the URL are parsed and re-encoded, so pass them unencoded. Responses are parsed back into the same
`Parameter` enum; a multipart response is split into its parts.

## Modules

| module | what it holds |
|---|---|
| `client` | the request in the making: URL, headers, parameters, body |
| `request` | URLs and queries, the three kinds of body |
| `outgoing` | the request as it is handed to the transfer |
| `transfer` | the response in the making, line by line and block by block |
| `response`, `parts`, `form` | reading a response, multipart bodies and forms |
| `media_type`, `headers`, `octets`, `percent`, `text` | the vocabulary, and the calls into outside crates |
| `laws` | what holds of the library as a whole |
