# kynos

The HTTP grammars and middleware decisions of the Kynos web framework, with
their behaviour stated as Verus contracts and proved.

- `src/` is the verified library. `octets`, `time` and `fields` hold the
  byte strings, spans and header blocks everything else is stated over;
  `http` the grammars (dates, entity tags, cookies, qvalues, methods,
  forwarding fields); `middleware` what each interceptor decides for one
  exchange — rate limits, caching, CORS, CSRF, compression, conditional
  requests, limits, request identifiers — together with the laws that hold
  across calls, as public proof functions.
- `app/` is the server side: conversions to and from the `http` crate's
  types, the asynchronous drivers that carry a decision across the awaits of
  an exchange, and what needs floating point or the network stack.
- `tests/` exercises the library from outside.
