"""Makes the stored proof of tests/stored_proof.rs.

The proof is that of eight payments of 1000 to 8000 stroops under a cap of
100000: nine committed values, padded to sixteen. It is built here from the
definitions (ristretto255, STROBE and Merlin, the aggregated range proof), with
blindings drawn from a fixed seed, and printed as hexadecimal text.

    python3 spend_proof_vector.py
"""
import hashlib

# The field of the curve and the order of the group.
P = 2**255 - 19
L = 2**252 + 27742317777372353535851937790883648493
D = -121665 * pow(121666, P - 2, P) % P
SQRT_M1 = pow(2, (P - 1) // 4, P)


def inverse(x):
    return pow(x, P - 2, P)


def negative(x):
    return x % P & 1


def magnitude(x):
    x %= P
    return P - x if negative(x) else x


def sqrt_ratio(u, v):
    """Whether u/v is a square, and the non-negative root of u/v or i*u/v."""
    v3 = v * v * v % P
    r = u * v3 * pow(u * v3 * v3 * v % P, (P - 5) // 8, P) % P
    check = v * r * r % P
    square = check == u % P
    flipped = check == -u % P
    if flipped or check == -u * SQRT_M1 % P:
        r = r * SQRT_M1 % P
    return square or flipped, magnitude(r)


INV_SQRT_A_MINUS_D = sqrt_ratio(1, -1 - D)[1]
# The sign of this root is fixed by the definition of the group.
SQRT_AD_MINUS_ONE = 25063068953384623474111414158702152701244531502492656460079210482610430750235

ZERO = (0, 1, 1, 0)


def add(p, q):
    a = (p[1] - p[0]) * (q[1] - q[0]) % P
    b = (p[1] + p[0]) * (q[1] + q[0]) % P
    c = 2 * p[3] * q[3] * D % P
    d = 2 * p[2] * q[2] % P
    e, f, g, h = b - a, d - c, d + c, b + a
    return e * f % P, g * h % P, f * g % P, e * h % P


def neg(p):
    return -p[0] % P, p[1], p[2], -p[3] % P


def mul(k, p):
    out = ZERO
    for bit in bin(k % L)[2:]:
        out = add(out, out)
        if bit == "1":
            out = add(out, p)
    return out


def total(terms):
    out = ZERO
    for k, p in terms:
        out = add(out, mul(k, p))
    return out


def encode(p):
    x, y, z, t = p
    u1 = (z + y) * (z - y) % P
    u2 = x * y % P
    root = sqrt_ratio(1, u1 * u2 * u2)[1]
    i1, i2 = root * u1 % P, root * u2 % P
    z_inv = i1 * i2 * t % P
    rotate = negative(t * z_inv)
    if rotate:
        x, y, root = y * SQRT_M1 % P, x * SQRT_M1 % P, i1 * INV_SQRT_A_MINUS_D % P
    else:
        root = i2
    if negative(x * z_inv):
        y = -y % P
    return magnitude(root * (z - y)).to_bytes(32, "little")


def elligator(r0):
    r = SQRT_M1 * r0 * r0 % P
    ns = (r + 1) * (1 - D * D) % P
    c = -1
    d = (c - D * r) * (r + D) % P
    square, s = sqrt_ratio(ns, d)
    if not square:
        s = -magnitude(s * r0) % P
        c = r
    nt = (c * (r - 1) * (D - 1) * (D - 1) - d) % P
    w0, w1, w2, w3 = 2 * s * d, nt * SQRT_AD_MINUS_ONE, 1 - s * s, 1 + s * s
    return w0 * w3 % P, w2 * w1 % P, w1 * w3 % P, w0 * w2 % P


def from_uniform(data):
    halves = [int.from_bytes(data[i : i + 32], "little") % 2**255 for i in (0, 32)]
    return add(elligator(halves[0]), elligator(halves[1]))


def basepoint():
    y = 4 * inverse(5) % P
    x = sqrt_ratio(y * y - 1, D * y * y + 1)[1]
    return x, y, 1, x * y % P


# Keccak, STROBE-128 and Merlin transcripts.
MASK = 2**64 - 1


def round_constants():
    register, constants = 1, []
    for _ in range(24):
        constant = 0
        for j in range(7):
            if register & 1:
                constant |= 1 << (2**j - 1)
            register = register << 1 ^ (0x171 if register & 0x80 else 0)
        constants.append(constant)
    return constants


def rotate_left(v, n):
    return (v << n | v >> (64 - n)) & MASK


def keccak(state):
    a = [int.from_bytes(state[8 * i : 8 * i + 8], "little") for i in range(25)]
    for constant in ROUND_CONSTANTS:
        c = [a[x] ^ a[x + 5] ^ a[x + 10] ^ a[x + 15] ^ a[x + 20] for x in range(5)]
        d = [c[(x + 4) % 5] ^ rotate_left(c[(x + 1) % 5], 1) for x in range(5)]
        a = [a[i] ^ d[i % 5] for i in range(25)]
        x, y, current = 1, 0, a[1]
        for t in range(24):
            x, y = y, (2 * x + 3 * y) % 5
            current, a[x + 5 * y] = a[x + 5 * y], rotate_left(current, (t + 1) * (t + 2) // 2 % 64)
        b = a
        a = []
        for row in range(0, 25, 5):
            r = b[row : row + 5]
            a += [r[x] ^ (~r[(x + 1) % 5] & MASK & r[(x + 2) % 5]) for x in range(5)]
        a[0] ^= constant
    for i, lane in enumerate(a):
        state[8 * i : 8 * i + 8] = lane.to_bytes(8, "little")


ROUND_CONSTANTS = round_constants()
RATE = 166


class Transcript:
    def __init__(self, label):
        self.state = bytearray(200)
        self.state[:18] = bytes([1, RATE + 2, 1, 0, 1, 96]) + b"STROBEv1.0.2"
        keccak(self.state)
        self.pos = self.begin = 0
        self.operate(0x12, b"Merlin v1.0")
        self.append(b"dom-sep", label)

    def run(self):
        self.state[self.pos] ^= self.begin
        self.state[self.pos + 1] ^= 0x04
        self.state[RATE + 1] ^= 0x80
        keccak(self.state)
        self.pos = self.begin = 0

    def absorb(self, data):
        for byte in data:
            self.state[self.pos] ^= byte
            self.pos += 1
            if self.pos == RATE:
                self.run()

    def operate(self, flags, data):
        old, self.begin = self.begin, self.pos + 1
        self.absorb([old, flags])
        if flags & 0x04 and self.pos:
            self.run()
        self.absorb(data)

    def append(self, label, message):
        self.operate(0x12, label + len(message).to_bytes(4, "little"))
        self.operate(0x02, message)

    def append_number(self, label, number):
        self.append(label, number.to_bytes(8, "little"))

    def challenge(self, label):
        self.operate(0x12, label + (64).to_bytes(4, "little"))
        self.operate(0x07, b"")
        out = bytearray()
        for _ in range(64):
            out.append(self.state[self.pos])
            self.state[self.pos] = 0
            self.pos += 1
            if self.pos == RATE:
                self.run()
        return int.from_bytes(out, "little") % L


# Generators.
BASE = basepoint()
BLINDING_BASE = from_uniform(hashlib.sha3_512(encode(BASE)).digest())


def generators(letter, party, bits):
    label = b"GeneratorsChain" + letter + party.to_bytes(4, "little")
    stream = hashlib.shake_256(label).digest(64 * bits)
    return [from_uniform(stream[64 * i : 64 * i + 64]) for i in range(bits)]


def commit(value, blinding):
    return add(mul(value, BASE), mul(blinding, BLINDING_BASE))


class Draws:
    """Scalars from a fixed seed."""

    def __init__(self, seed):
        self.seed, self.count = seed, 0

    def next(self):
        self.count += 1
        digest = hashlib.sha512(self.seed + self.count.to_bytes(8, "little")).digest()
        return int.from_bytes(digest, "little") % L


def inner(a, b):
    return sum(x * y for x, y in zip(a, b)) % L


def scalar_bytes(x):
    return (x % L).to_bytes(32, "little")


def prove_range(transcript, values, blindings, draws, bits=64):
    m = len(values)
    n = bits * m
    commitments = [encode(commit(v, r)) for v, r in zip(values, blindings)]
    g = [p for j in range(m) for p in generators(b"G", j, bits)]
    h = [p for j in range(m) for p in generators(b"H", j, bits)]
    transcript.append(b"dom-sep", b"rangeproof v1")
    transcript.append_number(b"n", bits)
    transcript.append_number(b"m", m)
    for c in commitments:
        transcript.append(b"V", c)

    a_left = [v >> i & 1 for v in values for i in range(bits)]
    alpha = draws.next()
    point_a = mul(alpha, BLINDING_BASE)
    for bit, gi, hi in zip(a_left, g, h):
        point_a = add(point_a, gi if bit else neg(hi))
    rho = draws.next()
    s_left = [draws.next() for _ in range(n)]
    s_right = [draws.next() for _ in range(n)]
    point_s = total([(rho, BLINDING_BASE)] + list(zip(s_left, g)) + list(zip(s_right, h)))
    out = [encode(point_a), encode(point_s)]
    transcript.append(b"A", out[0])
    transcript.append(b"S", out[1])
    y, z = transcript.challenge(b"y"), transcript.challenge(b"z")

    y_powers = [pow(y, i, L) for i in range(n)]
    shift = [pow(z, 2 + i // bits, L) * 2 ** (i % bits) % L for i in range(n)]
    l0 = [(bit - z) % L for bit in a_left]
    r0 = [(y_powers[i] * (a_left[i] - 1 + z) + shift[i]) % L for i in range(n)]
    r1 = [y_powers[i] * s_right[i] % L for i in range(n)]
    t1 = (inner(l0, r1) + inner(s_left, r0)) % L
    t2 = inner(s_left, r1)
    tau1, tau2 = draws.next(), draws.next()
    out += [encode(commit(t1, tau1)), encode(commit(t2, tau2))]
    transcript.append(b"T_1", out[2])
    transcript.append(b"T_2", out[3])
    x = transcript.challenge(b"x")

    l = [(p + q * x) % L for p, q in zip(l0, s_left)]
    r = [(p + q * x) % L for p, q in zip(r0, r1)]
    t_blinding = sum(pow(z, 2 + j, L) * b for j, b in enumerate(blindings)) + tau1 * x + tau2 * x * x
    for label, value in [(b"t_x", inner(l, r)), (b"t_x_blinding", t_blinding), (b"e_blinding", alpha + rho * x)]:
        out.append(scalar_bytes(value))
        transcript.append(label, out[-1])
    q = mul(transcript.challenge(b"w"), BASE)

    y_inverse = pow(y, L - 2, L)
    h = [mul(pow(y_inverse, i, L), p) for i, p in enumerate(h)]
    transcript.append(b"dom-sep", b"ipp v1")
    transcript.append_number(b"n", n)
    while n > 1:
        n //= 2
        left = total(list(zip(l[:n], g[n:])) + list(zip(r[n:], h[:n])) + [(inner(l[:n], r[n:]), q)])
        right = total(list(zip(l[n:], g[:n])) + list(zip(r[:n], h[n:])) + [(inner(l[n:], r[:n]), q)])
        out += [encode(left), encode(right)]
        transcript.append(b"L", out[-2])
        transcript.append(b"R", out[-1])
        u = transcript.challenge(b"u")
        v = pow(u, L - 2, L)
        l = [(l[i] * u + l[n + i] * v) % L for i in range(n)]
        r = [(r[i] * v + r[n + i] * u) % L for i in range(n)]
        g = [add(mul(v, g[i]), mul(u, g[n + i])) for i in range(n)]
        h = [add(mul(u, h[i]), mul(v, h[n + i])) for i in range(n)]
    return b"".join(out + [scalar_bytes(l[0]), scalar_bytes(r[0])]), commitments


def main():
    amounts = [1000 * i for i in range(1, 9)]
    cap = 100_000
    draws = Draws(b"eight payments")
    values = amounts + [cap - 1 - sum(amounts)]
    drawn = [draws.next() for _ in values]
    padding = [0] * (16 - len(values))
    transcript = Transcript(b"stellarconduit-emergency-spend-cap-v1")
    transcript.append(b"cap", cap.to_bytes(8, "little"))
    proof, commitments = prove_range(transcript, values + padding, drawn + padding, draws)
    print("proof", proof.hex())
    for c in commitments[: len(values)]:
        print("commitment", c.hex())
    print("blinding sum", scalar_bytes(sum(drawn)).hex())


if __name__ == "__main__":
    main()
